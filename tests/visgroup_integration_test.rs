use std::collections::HashSet;
use vmf_forge::vmf::entities::Entity;
use vmf_forge::vmf::metadata::{VisGroup, VisGroups};
use vmf_forge::vmf::world::Solid;
use vmf_forge::vmf_file::{collect_child_visgroup_ids, VmfFile};

fn group(id: i32, name: &str, color: &str, children: Option<Vec<VisGroup>>) -> VisGroup {
    VisGroup { id, name: name.to_string(), color: color.to_string(), children }
}

fn create_test_visgroups() -> Vec<VisGroup> {
    let grandchild = group(4, "Grandchild", "0 0 255", None);
    let child1 = group(2, "Child1", "0 255 0", Some(vec![grandchild]));
    let parent1 = group(1, "Parent", "255 0 0", Some(vec![child1]));
    let parent2 = group(3, "Parent2", "255 255 0", None);
    let other = group(5, "Other", "0 255 255", None);
    vec![parent1, parent2, other]
}

fn create_test_vmf() -> VmfFile {
    let mut vmf = VmfFile::default();
    vmf.visgroups.groups = create_test_visgroups();

    let mut ent_no_group = Entity::new("ent_no_group", 100);
    ent_no_group.editor.visgroup_id = None;
    let mut ent_parent = Entity::new("ent_parent", 101);
    ent_parent.editor.visgroup_id = Some(1);
    let mut ent_child1 = Entity::new("ent_child1", 102);
    ent_child1.editor.visgroup_id = Some(2);
    let mut ent_grandchild = Entity::new("ent_grandchild", 104);
    ent_grandchild.editor.visgroup_id = Some(4);
    let mut ent_other = Entity::new("ent_other", 105);
    ent_other.editor.visgroup_id = Some(5);
    let mut hidden_ent_parent = Entity::new("hidden_ent_parent", 201);
    hidden_ent_parent.editor.visgroup_id = Some(1);
    hidden_ent_parent.is_hidden = true;

    vmf.entities.push(ent_no_group);
    vmf.entities.push(ent_parent);
    vmf.entities.push(ent_child1);
    vmf.entities.push(ent_grandchild);
    vmf.entities.push(ent_other);
    vmf.hiddens.push(hidden_ent_parent);

    let mut solid_no_group = Solid { id: 500, ..Default::default() };
    solid_no_group.editor.visgroup_id = None;
    let mut solid_parent = Solid { id: 501, ..Default::default() };
    solid_parent.editor.visgroup_id = Some(1);
    solid_parent.editor.color = "255 0 0".to_string();
    let mut solid_child1 = Solid { id: 502, ..Default::default() };
    solid_child1.editor.visgroup_id = Some(2);
    solid_child1.editor.color = "0 255 0".to_string();
    let mut hidden_solid_child1 = Solid { id: 602, ..Default::default() };
    hidden_solid_child1.editor.visgroup_id = Some(2);

    vmf.world.solids.push(solid_no_group);
    vmf.world.solids.push(solid_parent);
    vmf.world.solids.push(solid_child1);
    vmf.world.hidden.push(hidden_solid_child1);
    vmf
}

fn entity_ids(v: Vec<&Entity>) -> HashSet<u64> {
    v.iter().map(|e| e.id()).collect()
}

fn solid_ids(v: Vec<&Solid>) -> HashSet<u64> {
    v.iter().map(|s| s.id).collect()
}

#[test]
fn test_visgroups_find_by_id() {
    let visgroups = VisGroups { groups: create_test_visgroups() };

    let found_parent1 = visgroups.find_by_id(1);
    assert!(found_parent1.is_some());
    assert_eq!(found_parent1.unwrap().name, "Parent");

    let found_child1 = visgroups.find_by_id(2);
    assert!(found_child1.is_some());
    assert_eq!(found_child1.unwrap().name, "Child1");

    let found_grandchild = visgroups.find_by_id(4);
    assert!(found_grandchild.is_some());
    assert_eq!(found_grandchild.unwrap().name, "Grandchild");

    let not_found = visgroups.find_by_id(99);
    assert!(not_found.is_none());
}

#[test]
fn test_get_entities_direct_no_children() {
    let vmf = create_test_vmf();
    let found = vmf.get_entities_in_visgroup(1, false);
    assert!(found.is_some());
    assert_eq!(entity_ids(found.unwrap()), HashSet::from([101, 201]));
}

#[test]
fn test_get_entities_child_no_children() {
    let vmf = create_test_vmf();
    let found = vmf.get_entities_in_visgroup(2, false);
    assert!(found.is_some());
    assert_eq!(entity_ids(found.unwrap()), HashSet::from([102]));
}

#[test]
fn test_get_entities_grandchild_no_children() {
    let vmf = create_test_vmf();
    let found = vmf.get_entities_in_visgroup(4, false);
    assert!(found.is_some());
    assert_eq!(entity_ids(found.unwrap()), HashSet::from([104]));
}

#[test]
fn test_get_entities_parent_with_children() {
    let vmf = create_test_vmf();
    let found = vmf.get_entities_in_visgroup(1, true);
    assert!(found.is_some());
    assert_eq!(entity_ids(found.unwrap()), HashSet::from([101, 201, 102, 104]));
}

#[test]
fn test_get_entities_child_with_children() {
    let vmf = create_test_vmf();
    let found = vmf.get_entities_in_visgroup(2, true);
    assert!(found.is_some());
    assert_eq!(entity_ids(found.unwrap()), HashSet::from([102, 104]));
}

#[test]
fn test_get_entities_no_entities_in_group() {
    let vmf = create_test_vmf();
    let no_children = vmf.get_entities_in_visgroup(3, false);
    assert!(no_children.is_some());
    assert_eq!(no_children.unwrap().len(), 0);

    let with_children = vmf.get_entities_in_visgroup(3, true);
    assert!(with_children.is_some());
    assert_eq!(with_children.unwrap().len(), 0);
}

#[test]
fn test_get_entities_group_not_found() {
    let vmf = create_test_vmf();
    assert!(vmf.get_entities_in_visgroup(99, false).is_none());
    assert!(vmf.get_entities_in_visgroup(99, true).is_none());
}

#[test]
fn test_get_solids_direct_no_children() {
    let vmf = create_test_vmf();
    let found = vmf.get_solids_in_visgroup(1, false);
    assert!(found.is_some());
    assert_eq!(solid_ids(found.unwrap()), HashSet::from([501]));
}

#[test]
fn test_get_solids_child_no_children() {
    let vmf = create_test_vmf();
    let found = vmf.get_solids_in_visgroup(2, false);
    assert!(found.is_some());
    assert_eq!(solid_ids(found.unwrap()), HashSet::from([502, 602]));
}

#[test]
fn test_get_solids_parent_with_children() {
    let vmf = create_test_vmf();
    let found = vmf.get_solids_in_visgroup(1, true);
    assert!(found.is_some());
    assert_eq!(solid_ids(found.unwrap()), HashSet::from([501, 502, 602]));
}

#[test]
fn test_get_solids_no_solids_in_group() {
    let vmf = create_test_vmf();
    let found = vmf.get_solids_in_visgroup(4, false);
    assert!(found.is_some());
    assert_eq!(found.unwrap().len(), 0);

    let with_children = vmf.get_solids_in_visgroup(4, true);
    assert!(with_children.is_some());
    assert_eq!(with_children.unwrap().len(), 0);
}

#[test]
fn test_get_solids_group_not_found() {
    let vmf = create_test_vmf();
    assert!(vmf.get_solids_in_visgroup(99, false).is_none());
    assert!(vmf.get_solids_in_visgroup(99, true).is_none());
}

#[test]
fn collect_ids_walks_the_subtree() {
    let groups = create_test_visgroups();
    let mut ids = Vec::new();
    collect_child_visgroup_ids(&groups[0], &mut ids);
    assert_eq!(ids, vec![1, 2, 4]);
    collect_child_visgroup_ids(&groups[0], &mut ids);
    assert_eq!(ids, vec![1, 2, 4]);
}

#[test]
fn collect_ids_leaves_list_when_id_present() {
    let groups = create_test_visgroups();
    let mut ids = vec![7, 1];
    collect_child_visgroup_ids(&groups[0], &mut ids);
    assert_eq!(ids, vec![7, 1]);
}
