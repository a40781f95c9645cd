use indexmap::IndexMap;
use vmf_forge::errors::VmfError;
use vmf_forge::vmf::common::Editor;
use vmf_forge::vmf::entities::{process_connections, Entities, Entity};
use vmf_forge::VmfBlock;
use vmf_forge::VmfSerializable;

fn kv(pairs: &[(&str, &str)]) -> IndexMap<String, String> {
    let mut m = IndexMap::new();
    for (k, v) in pairs {
        m.insert(k.to_string(), v.to_string());
    }
    m
}

fn blk(name: &str, pairs: &[(&str, &str)], blocks: Vec<VmfBlock>) -> VmfBlock {
    VmfBlock { name: name.to_string(), key_values: kv(pairs), blocks }
}

#[test]
fn entity_try_from_valid_block() {
    let mut block = blk("entity", &[("classname", "logic_relay"), ("targetname", "test_relay")], vec![]);
    block.blocks.push(blk("editor", &[("color", "255 255 255")], vec![]));
    block.blocks.push(blk("solid", &[("id", "1")], vec![]));
    block.blocks.push(blk("hidden", &[], vec![blk("solid", &[("id", "2")], vec![])]));

    let entity = Entity::from_block(block).unwrap();

    assert_eq!(entity.key_values.get("classname").unwrap(), "logic_relay");
    assert_eq!(entity.key_values.get("targetname").unwrap(), "test_relay");
    assert_eq!(entity.editor.color, "255 255 255");
    assert_eq!(entity.solids.as_ref().unwrap().len(), 2);
    assert_eq!(entity.solids.as_ref().unwrap()[0].id, 1);
    assert_eq!(entity.solids.as_ref().unwrap()[1].id, 2);
}

#[test]
fn entity_try_from_invalid_type() {
    let block = blk(
        "entity",
        &[("classname", "logic_relay"), ("targetname", "abc")],
        vec![blk("solid", &[("id", "abc")], vec![])],
    );
    let result = Entity::from_block(block);
    assert!(matches!(result, Err(VmfError::ParseInt { source: _, key: _ })));
}

#[test]
fn entity_to_vmf_string() {
    let entity = Entity {
        key_values: kv(&[("classname", "logic_relay"), ("targetname", "test_relay")]),
        connections: None,
        solids: None,
        editor: Editor { color: "255 255 255".to_string(), ..Default::default() },
        is_hidden: false,
    };

    let expected = "\
    entity\n\
    {\n\
    \t\"classname\" \"logic_relay\"\n\
    \t\"targetname\" \"test_relay\"\n\
    \teditor\n\
    \t{\n\
    \t\t\"color\" \"255 255 255\"\n\
    \t\t\"visgroupshown\" \"1\"\n\
    \t\t\"visgroupautoshown\" \"1\"\n\
    \t}\n\
    }\n";

    assert_eq!(entity.to_vmf_string(0), expected);
}

#[test]
fn entity_into_vmf_block() {
    let entity = Entity {
        key_values: kv(&[("classname", "logic_relay"), ("targetname", "test_relay")]),
        connections: None,
        solids: None,
        editor: Editor { color: "255 255 255".to_string(), ..Default::default() },
        is_hidden: false,
    };

    let block = entity.into_block();

    assert_eq!(block.name, "entity");
    assert_eq!(block.key_values.get("classname"), Some(&"logic_relay".to_string()));
    assert_eq!(block.key_values.get("targetname"), Some(&"test_relay".to_string()));
    assert_eq!(block.blocks.len(), 1);
    assert_eq!(block.blocks[0].name, "editor");
    assert_eq!(block.blocks[0].key_values.get("color"), Some(&"255 255 255".to_string()));
}

fn ent(pairs: &[(&str, &str)]) -> Entity {
    Entity { key_values: kv(pairs), ..Default::default() }
}

#[test]
fn test_entities_find_by_keyvalue() {
    let mut entities = Entities::default();
    entities.push(ent(&[("classname", "entity1"), ("key1", "value1")]));
    entities.push(ent(&[("classname", "entity2"), ("key1", "value2")]));
    entities.push(ent(&[("classname", "entity1"), ("key2", "value3")]));

    assert_eq!(entities.find_by_keyvalue("classname", "entity1").len(), 2);
    assert_eq!(entities.find_by_keyvalue("key1", "value1").len(), 1);
    assert_eq!(entities.find_by_keyvalue("key3", "value4").len(), 0);
}

#[test]
fn test_entities_find_by_keyvalue_mut() {
    let mut entities = Entities::default();
    entities.push(ent(&[("classname", "entity1"), ("key1", "value1")]));
    entities.push(ent(&[("classname", "entity2"), ("key1", "value2")]));

    let found = entities.find_by_keyvalue_mut("classname", "entity1");
    assert_eq!(entities.0[found[0]].key_values.get("key1").unwrap(), "value1");
    assert_eq!(found.len(), 1);

    assert_eq!(entities.0[1].key_values.get("key1").unwrap(), "value2");
}

#[test]
fn test_entities_find_by_classname() {
    let mut entities = Entities::default();
    entities.push(ent(&[("classname", "info_player_start")]));
    entities.push(ent(&[("classname", "entity2")]));
    assert_eq!(entities.find_by_classname("info_player_start").len(), 1);
}

#[test]
fn test_entities_find_by_name() {
    let mut entities = Entities::default();
    entities.push(ent(&[("targetname", "my_entity")]));
    entities.push(ent(&[("targetname", "another_entity")]));
    assert_eq!(entities.find_by_name("my_entity").len(), 1);
}

#[test]
fn test_entities_find_by_classname_mut() {
    let mut entities = Entities::default();
    entities.push(ent(&[("classname", "info_player_start")]));
    let found = entities.find_by_classname_mut("info_player_start");
    assert!(found.first().is_some());
    assert!(found.get(1).is_none());
}

#[test]
fn test_entities_find_by_name_mut() {
    let mut entities = Entities::default();
    entities.push(ent(&[("targetname", "my_entity")]));
    let found = entities.find_by_name_mut("my_entity");
    assert!(found.first().is_some());
    assert!(found.get(1).is_none());
}

#[test]
fn entity_to_vmf_string_with_connections() {
    let entity = Entity {
        key_values: kv(&[
            ("id", "2810"),
            ("classname", "logic_relay"),
            ("targetname", "button_unpressed_relay"),
            ("origin", "304 416 64"),
        ]),
        connections: Some(vec![
            ("OnTrigger".to_string(), "@exit_door instance:door_close_relay;Trigger  0 -1".to_string()),
            ("OnTrigger".to_string(), "door_checkmark Uncheck  0 -1".to_string()),
        ]),
        solids: None,
        editor: Editor {
            color: "220 30 220".to_string(),
            visgroup_shown: true,
            visgroup_auto_shown: true,
            logical_pos: Some("[0 -5268]".to_string()),
            ..Default::default()
        },
        is_hidden: false,
    };

    let expected = "\
    entity\n\
    {\n\
    \t\"id\" \"2810\"\n\
    \t\"classname\" \"logic_relay\"\n\
    \t\"targetname\" \"button_unpressed_relay\"\n\
    \t\"origin\" \"304 416 64\"\n\
    \tconnections\n\
    \t{\n\
    \t\t\"OnTrigger\" \"@exit_door instance:door_close_relay;Trigger  0 -1\"\n\
    \t\t\"OnTrigger\" \"door_checkmark Uncheck  0 -1\"\n\
    \t}\n\
    \teditor\n\
    \t{\n\
    \t\t\"color\" \"220 30 220\"\n\
    \t\t\"visgroupshown\" \"1\"\n\
    \t\t\"visgroupautoshown\" \"1\"\n\
    \t\t\"logicalpos\" \"[0 -5268]\"\n\
    \t}\n\
    }\n";

    assert_eq!(entity.to_vmf_string(0), expected);
}

#[test]
fn entity_new() {
    let entity = Entity::new("info_player_start", 1);
    assert_eq!(entity.classname(), Some("info_player_start"));
    assert_eq!(entity.id(), 1);
    assert!(entity.connections.is_none());
    assert!(entity.solids.is_none());
    assert_eq!(entity.editor.color, "255 255 255");
    assert!(!entity.is_hidden);
}

#[test]
fn entity_set() {
    let mut entity = Entity::new("info_player_start", 1);
    entity.set("targetname".to_string(), "my_player_start".to_string());
    assert_eq!(entity.targetname(), Some("my_player_start"));

    entity.set("origin".to_string(), "10 20 30".to_string());
    assert_eq!(entity.get("origin"), Some(&"10 20 30".to_string()));
}

#[test]
fn entity_remove_key() {
    let mut entity = Entity::new("info_player_start", 1);
    entity.set("targetname".to_string(), "my_player_start".to_string());

    let removed_value = entity.remove_key("targetname");
    assert_eq!(removed_value, Some("my_player_start".to_string()));
    assert!(entity.targetname().is_none());

    let none_value = entity.remove_key("nonexistent_key");
    assert!(none_value.is_none());
}

#[test]
fn entity_swap_remove_key() {
    let mut entity = Entity::new("info_player_start", 1);
    entity.set("targetname".to_string(), "my_player_start".to_string());

    let removed_value = entity.swap_remove_key("targetname");
    assert_eq!(removed_value, Some("my_player_start".to_string()));
    assert!(entity.targetname().is_none());

    let none_value = entity.swap_remove_key("nonexistent_key");
    assert!(none_value.is_none());
}

#[test]
fn entity_get() {
    let mut entity = Entity::new("info_player_start", 1);
    entity.set("targetname".to_string(), "my_player_start".to_string());

    assert_eq!(entity.get("targetname"), Some(&"my_player_start".to_string()));
    assert!(entity.get("nonexistent_key").is_none());
}

#[test]
fn entity_classname_targetname_id_model() {
    let mut entity = Entity::new("info_player_start", 1);
    entity.set("targetname".to_string(), "my_player_start".to_string());
    entity.set("model".to_string(), "*1".to_string());

    assert_eq!(entity.classname(), Some("info_player_start"));
    assert_eq!(entity.targetname(), Some("my_player_start"));
    assert_eq!(entity.id(), 1);
    assert_eq!(entity.model(), Some("*1"));

    let mut entity2 = Entity::new("func_brush", 2);
    entity2.set("targetname".to_string(), "my_brush".to_string());
    assert_eq!(entity2.classname(), Some("func_brush"));
}

#[test]
fn entity_add_connection() {
    let mut entity = Entity::new("logic_relay", 1);
    entity.add_connection("OnTrigger", "my_door", "Open", "", "0", -1);
    entity.add_connection("OnTrigger", "my_sound", "PlaySound", "bang", "0.5", 1);

    assert!(entity.connections.is_some());
    let connections = entity.connections.unwrap();
    assert_eq!(connections.len(), 2);
    assert_eq!(connections[0], ("OnTrigger".to_string(), "my_door\x1BOpen\x1B\x1B0\x1B-1".to_string()));
    assert_eq!(
        connections[1],
        ("OnTrigger".to_string(), "my_sound\x1BPlaySound\x1Bbang\x1B0.5\x1B1".to_string())
    );
}

#[test]
fn entity_has_connection() {
    let mut entity = Entity::new("logic_relay", 1);
    entity.add_connection("OnTrigger", "my_door", "Open", "", "0", -1);

    assert!(entity.has_connection("OnTrigger", "my_door\x1BOpen\x1B\x1B0\x1B-1"));
    assert!(!entity.has_connection("OnTrigger", "my_door\x1BClose\x1B\x1B0\x1B-1"));
    assert!(!entity.has_connection("OnStartTouch", "my_door\x1BOpen\x1B\x1B0\x1B-1"));
}

#[test]
fn entity_clear_connections() {
    let mut entity = Entity::new("logic_relay", 1);
    entity.add_connection("OnTrigger", "my_door", "Open", "", "0", -1);
    entity.clear_connections();
    assert!(entity.connections.is_none());
}

#[test]
fn entities_remove_entity() {
    let mut entities = Entities::default();
    let entity1 = Entity::new("info_player_start", 1);
    let entity2 = Entity::new("func_detail", 2);
    entities.push(entity1.clone());
    entities.push(entity2);

    let removed_entity = entities.remove_entity(1);
    assert_eq!(removed_entity, Some(entity1));
    assert_eq!(entities.len(), 1);

    let non_existent = entities.remove_entity(3);
    assert!(non_existent.is_none());
}

#[test]
fn test_remove_by_keyvalue() {
    let mut entities = Entities::default();
    entities.push(Entity::new("info_player_start", 1));
    entities.push(Entity::new("info_player_deathmatch", 2));
    entities.push(Entity::new("info_player_start", 3));

    entities.remove_by_keyvalue("classname", "info_player_start");
    assert_eq!(entities.len(), 1);
    assert_eq!(entities.0[0].id(), 2);
}

#[test]
fn remove_by_keyvalue_no_match() {
    let mut entities = Entities::default();
    entities.push(Entity::new("info_player_start", 1));
    entities.remove_by_keyvalue("classname", "func_door");
    assert_eq!(entities.len(), 1);
}

#[test]
fn remove_by_keyvalue_empty() {
    let mut entities = Entities::default();
    entities.remove_by_keyvalue("classname", "anything");
    assert_eq!(entities.len(), 0);
}

#[test]
fn connections_split_on_joining_character() {
    let m = kv(&[("OnTrigger", "a\rb"), ("OnUser1", "c")]);
    let cs = process_connections(&m).unwrap();
    assert_eq!(
        cs,
        vec![
            ("OnTrigger".to_string(), "a".to_string()),
            ("OnTrigger".to_string(), "b".to_string()),
            ("OnUser1".to_string(), "c".to_string()),
        ]
    );
    assert!(process_connections(&IndexMap::new()).is_none());
}

#[test]
fn entity_id_defaults_to_zero() {
    let e = ent(&[("id", "abc")]);
    assert_eq!(e.id(), 0);
    assert_eq!(ent(&[]).id(), 0);
}

#[test]
fn editor_reading_is_lenient() {
    let block = blk("editor", &[("visgroupid", "x"), ("groupid", "7"), ("visgroupshown", "1"), ("comments", "hi")], vec![]);
    let e = Editor::from_block(block).unwrap();
    assert_eq!(e.color, "255 255 255");
    assert_eq!(e.visgroup_id, None);
    assert_eq!(e.group_id, Some(7));
    assert!(e.visgroup_shown);
    assert!(!e.visgroup_auto_shown);
    assert_eq!(e.comments, Some("hi".to_string()));
    let b = e.into_block();
    assert_eq!(b.name, "editor");
    let keys: Vec<&String> = b.key_values.keys().collect();
    assert_eq!(keys, vec!["color", "groupid", "visgroupshown", "visgroupautoshown", "comments"]);
    assert_eq!(b.key_values.get("visgroupautoshown"), Some(&"0".to_string()));
}

#[test]
fn repeated_outputs_agree_on_both_paths() {
    let entity = Entity {
        key_values: kv(&[("classname", "logic_relay")]),
        connections: Some(vec![
            ("O".to_string(), "a".to_string()),
            ("O".to_string(), "b".to_string()),
        ]),
        solids: None,
        editor: Editor::default(),
        is_hidden: false,
    };
    let direct = entity.to_vmf_string(0);
    let generic = entity.clone().into_block().serialize(0);
    assert_eq!(direct, generic);
    assert!(direct.contains("\t\t\"O\" \"a\"\n\t\t\"O\" \"b\"\n"));
}
