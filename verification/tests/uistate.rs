use std::cell::RefCell;

use fastsl::json::{Json, JsonMap};
use fastsl::uistate::{
    dedup_preserve, truthy_to_int, UiOverlay, UiState, MAX_GROUPS, MAX_GROUP_MEMBERS, SIDECAR_NAME,
};

/// A place that keeps the last overlay that was stored.
struct Sidecar {
    kept: RefCell<Option<UiOverlay>>,
}

impl Sidecar {
    fn new() -> Sidecar {
        Sidecar { kept: RefCell::new(None) }
    }

    fn keep(&self, overlay: &UiOverlay) -> Result<(), String> {
        *self.kept.borrow_mut() = Some(overlay.copy());
        Ok(())
    }

    fn load(&self) -> UiState {
        UiState::load(self.kept.borrow().as_ref().map(|o| o.copy()))
    }
}

fn refuse(_: &UiOverlay) -> Result<(), String> {
    Err("disk full".to_string())
}

#[test]
fn alias_set_clear_and_reload_from_disk() {
    let disk = Sidecar::new();
    let mut ui = disk.load();

    ui.set_experiment_alias("run-abc", Some("baseline".into()), |o| disk.keep(o)).unwrap();
    assert_eq!(ui.snapshot().alias("run-abc"), Some("baseline"));

    let mut reloaded = disk.load();
    assert_eq!(reloaded.snapshot().alias("run-abc"), Some("baseline"));

    reloaded.set_experiment_alias("run-abc", Some(String::new()), |o| disk.keep(o)).unwrap();
    assert_eq!(reloaded.snapshot().alias("run-abc"), None);
    assert_eq!(disk.load().snapshot().alias("run-abc"), None);
}

#[test]
fn group_crud_persists_and_ids_are_monotonic() {
    let disk = Sidecar::new();
    let mut ui = disk.load();

    let g1 = ui
        .create_group(
            "baseline".into(),
            &vec!["run-a".to_string(), "run-a".to_string()],
            |o| disk.keep(o),
        )
        .unwrap()
        .unwrap();
    let g2 = ui.create_group("ablation".into(), &vec![], |o| disk.keep(o)).unwrap().unwrap();
    assert_eq!(g1.id, 1);
    assert_eq!(g2.id, 2, "ids are monotonic");
    assert_eq!(g1.members, vec!["run-a"], "members de-duplicated");

    assert!(ui.add_member(g2.id, "run-b", |o| disk.keep(o)).unwrap());
    assert!(ui.add_member(g2.id, "run-b", |o| disk.keep(o)).unwrap(), "add is idempotent");
    assert!(ui.rename_group(g1.id, "baseline-v2".into(), |o| disk.keep(o)).unwrap());
    assert!(!ui.rename_group(999, "missing".into(), |o| disk.keep(o)).unwrap());

    assert!(ui.delete_group(g1.id, |o| disk.keep(o)).unwrap());
    let g3 = ui.create_group("third".into(), &vec![], |o| disk.keep(o)).unwrap().unwrap();
    assert_eq!(g3.id, 3, "deleted id 1 is not reused");

    let groups = disk.load().snapshot().groups;
    let ids: Vec<i64> = groups.iter().map(|g| g.id).collect();
    assert_eq!(ids, vec![2, 3]);
    let g2_reloaded = groups.iter().find(|g| g.id == 2).unwrap();
    assert_eq!(g2_reloaded.name, "ablation");
    assert_eq!(g2_reloaded.members, vec!["run-b"]);
}

#[test]
fn remove_member_reports_group_presence() {
    let disk = Sidecar::new();
    let mut ui = disk.load();
    let g = ui
        .create_group(
            "g".into(),
            &vec!["run-a".to_string(), "run-b".to_string()],
            |o| disk.keep(o),
        )
        .unwrap()
        .unwrap();

    assert!(ui.remove_member(g.id, "run-a", |o| disk.keep(o)).unwrap());
    assert!(
        ui.remove_member(g.id, "run-a", |o| disk.keep(o)).unwrap(),
        "removing an absent member still returns true (group exists)"
    );
    assert!(
        !ui.remove_member(404, "run-a", |o| disk.keep(o)).unwrap(),
        "missing group returns false"
    );
    assert_eq!(ui.snapshot().groups[0].members, vec!["run-b"]);
}

#[test]
fn empty_overlay_changes_no_value() {
    let o = UiOverlay::empty();
    assert_eq!(o.chart_status(7, -1), -1);
    assert_eq!(o.apply_namespace_opened(7, Json::Null), Json::Null);
    assert_eq!(o.apply_experiment_show(7, Json::Int(1)), Json::Int(1));
    assert_eq!(o.apply_experiment_pinned(7, Json::Int(1)), Json::Int(1));
    assert_eq!(o.apply_experiment_hidden(7, Json::Int(0)), Json::Int(0));
    assert_eq!(o.apply_project_pinned(7, Json::Int(1)), Json::Int(1));
    assert_eq!(o.apply_project_hidden(7, Json::Int(0)), Json::Int(0));
    assert_eq!(o.alias("run-abc"), None);
    assert_eq!(SIDECAR_NAME, "fastsl-ui.json");
}

#[test]
fn overrides_are_read_back_for_their_row_only() {
    let disk = Sidecar::new();
    let mut ui = disk.load();
    ui.set_chart_status(4, 1, |o| disk.keep(o)).unwrap();
    ui.set_namespace_opened(5, 0, |o| disk.keep(o)).unwrap();
    ui.set_experiment_show(6, 0, |o| disk.keep(o)).unwrap();
    ui.set_experiment_pinned(7, 1, |o| disk.keep(o)).unwrap();
    ui.set_experiment_hidden(8, 1, |o| disk.keep(o)).unwrap();
    ui.set_project_pinned(1, 0, |o| disk.keep(o)).unwrap();
    ui.set_project_hidden(1, 1, |o| disk.keep(o)).unwrap();
    let o = disk.load().snapshot();
    assert_eq!(o.chart_status(4, 0), 1);
    assert_eq!(o.chart_status(5, 0), 0);
    assert_eq!(o.apply_namespace_opened(5, Json::Int(1)), Json::Int(0));
    assert_eq!(o.apply_namespace_opened(4, Json::Int(1)), Json::Int(1));
    assert_eq!(o.apply_experiment_show(6, Json::Int(1)), Json::Int(0));
    assert_eq!(o.apply_experiment_pinned(7, Json::Null), Json::Int(1));
    assert_eq!(o.apply_experiment_hidden(8, Json::Null), Json::Int(1));
    assert_eq!(o.apply_project_pinned(1, Json::Int(1)), Json::Int(0));
    assert_eq!(o.apply_project_hidden(1, Json::Int(0)), Json::Int(1));
}

#[test]
fn a_change_that_is_not_stored_leaves_the_state() {
    let mut ui = UiState::load(None);
    assert_eq!(ui.set_chart_status(4, 1, refuse), Err("disk full".to_string()));
    assert_eq!(ui.snapshot().chart_status(4, 0), 0);
    assert_eq!(ui.create_group("g".into(), &vec![], refuse), Err("disk full".to_string()));
    assert!(ui.snapshot().groups.is_empty());
    let disk = Sidecar::new();
    let g = ui.create_group("g".into(), &vec![], |o| disk.keep(o)).unwrap().unwrap();
    assert_eq!(g.id, 1, "a refused creation uses no id");
    assert_eq!(ui.delete_group(1, refuse), Err("disk full".to_string()));
    assert_eq!(ui.snapshot().groups.len(), 1);
}

#[test]
fn groups_and_members_are_limited() {
    let disk = Sidecar::new();
    let mut ui = disk.load();
    let many: Vec<String> = (0..MAX_GROUP_MEMBERS).map(|i| format!("run-{i}")).collect();
    let g = ui.create_group("full".into(), &many, |o| disk.keep(o)).unwrap().unwrap();
    assert_eq!(g.members.len(), 500);
    assert!(!ui.add_member(g.id, "one-more", |o| disk.keep(o)).unwrap());
    assert!(ui.add_member(g.id, "run-3", |o| disk.keep(o)).unwrap());
    for _ in 1..MAX_GROUPS {
        assert!(ui.create_group("g".into(), &vec![], |o| disk.keep(o)).unwrap().is_some());
    }
    assert_eq!(ui.create_group("g".into(), &vec![], |o| disk.keep(o)), Ok(None));
    assert_eq!(ui.snapshot().groups.len(), 100);
}

#[test]
fn no_group_is_created_with_too_many_members() {
    let disk = Sidecar::new();
    let mut ui = disk.load();
    let many: Vec<String> = (0..=MAX_GROUP_MEMBERS).map(|i| format!("run-{i}")).collect();
    assert_eq!(ui.create_group("big".into(), &many, |o| disk.keep(o)), Ok(None));
    assert!(ui.snapshot().groups.is_empty());
    let twice: Vec<String> =
        (0..2 * MAX_GROUP_MEMBERS).map(|i| format!("run-{}", i % MAX_GROUP_MEMBERS)).collect();
    let g = ui.create_group("full".into(), &twice, |o| disk.keep(o)).unwrap().unwrap();
    assert_eq!(g.id, 1, "a creation that creates nothing uses no id");
    assert_eq!(g.members.len(), MAX_GROUP_MEMBERS);
}

#[test]
fn dedup_keeps_the_first_of_each() {
    let items: Vec<String> = ["b", "a", "b", "c", "a"].iter().map(|s| s.to_string()).collect();
    assert_eq!(dedup_preserve(&items), vec!["b", "a", "c"]);
    assert_eq!(dedup_preserve(&dedup_preserve(&items)), vec!["b", "a", "c"]);
}

#[test]
fn removing_undoes_adding_and_deleting_undoes_creating() {
    let disk = Sidecar::new();
    let mut ui = disk.load();
    let g = ui.create_group("g".into(), &vec!["a".to_string()], |o| disk.keep(o)).unwrap().unwrap();
    ui.add_member(g.id, "b", |o| disk.keep(o)).unwrap();
    ui.remove_member(g.id, "b", |o| disk.keep(o)).unwrap();
    assert_eq!(ui.snapshot().groups, vec![g]);
    let h = ui.create_group("h".into(), &vec![], |o| disk.keep(o)).unwrap().unwrap();
    ui.delete_group(h.id, |o| disk.keep(o)).unwrap();
    assert_eq!(ui.snapshot().groups.len(), 1);
    assert_eq!(ui.snapshot().next_group_id, 3);
}

#[test]
fn truth_values_of_json() {
    assert_eq!(truthy_to_int(&Json::Null), 0);
    assert_eq!(truthy_to_int(&Json::Bool(true)), 1);
    assert_eq!(truthy_to_int(&Json::Bool(false)), 0);
    assert_eq!(truthy_to_int(&Json::Int(0)), 0);
    assert_eq!(truthy_to_int(&Json::Int(-3)), 1);
    assert_eq!(truthy_to_int(&Json::UInt(u64::MAX)), 1);
    assert_eq!(truthy_to_int(&Json::Real((-0.0f64).to_bits())), 0);
    assert_eq!(truthy_to_int(&Json::Real(0.5f64.to_bits())), 1);
    assert_eq!(truthy_to_int(&Json::Str(String::new())), 0);
    assert_eq!(truthy_to_int(&Json::Str("0".to_string())), 1);
    assert_eq!(truthy_to_int(&Json::Array(vec![])), 0);
    assert_eq!(truthy_to_int(&Json::Array(vec![Json::Null])), 1);
    assert_eq!(truthy_to_int(&Json::Object(JsonMap::new())), 0);
}
