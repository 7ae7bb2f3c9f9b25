use ring_cli::cache::{compute_hash, ConfigEntry};
use ring_cli::refresh::{
    changed_entries, entry_status, is_affirmative, needs_answer, refresh_step, update_step, EntryStatus, RefreshAction,
    RefreshPlan,
};

fn entry(name: &str, source: &str, content: &str) -> ConfigEntry {
    ConfigEntry {
        name: name.to_string(),
        source_path: source.to_string(),
        hash: compute_hash(content),
        trusted_at: "1".to_string(),
    }
}

#[test]
fn entry_status_compares_raw_content() {
    let e = entry("alpha", "/a.yml", "v1");
    assert!(matches!(entry_status(&e, &None), EntryStatus::Unavailable));
    let same = Some(("cached".to_string(), "v1".to_string()));
    assert!(matches!(entry_status(&e, &same), EntryStatus::Unchanged));
    let other = Some(("v1".to_string(), "v2".to_string()));
    assert!(matches!(entry_status(&e, &other), EntryStatus::Changed));
}

#[test]
fn changed_entries_lists_changed_indices_in_order() {
    let entries = vec![entry("a", "/a.yml", "a"), entry("b", "/b.yml", "b"), entry("c", "/c.yml", "c")];
    let raws = vec![Some("a2".to_string()), None, Some("c2".to_string())];
    assert_eq!(changed_entries(&entries, &raws), vec![0, 2]);
    let same = vec![Some("a".to_string()), Some("b".to_string()), Some("c".to_string())];
    assert!(changed_entries(&entries, &same).is_empty());
}

#[test]
fn refresh_plan_records_kept_and_accepted_entries() {
    let mut plan = RefreshPlan::new();
    assert!(plan.updated.is_empty() && plan.raw_overrides.is_empty() && !plan.any_changed);
    let kept = entry("a", "/a.yml", "a");
    plan.keep(&kept, "a".to_string());
    assert!(!plan.any_changed);
    let file = entry("b", "/b.yml", "b");
    plan.accept(1, &file, "b2".to_string(), "b2".to_string());
    assert!(plan.raw_overrides.is_empty());
    let api = entry("api", "openapi:spec.json", "gen");
    plan.accept(2, &api, "generated".to_string(), "raw spec".to_string());
    assert!(plan.any_changed);
    assert_eq!(
        plan.updated,
        vec![
            ("a".to_string(), "/a.yml".to_string(), "a".to_string()),
            ("b".to_string(), "/b.yml".to_string(), "b2".to_string()),
            ("api".to_string(), "openapi:spec.json".to_string(), "generated".to_string()),
        ]
    );
    assert_eq!(plan.raw_overrides, vec![(2, "raw spec".to_string())]);
}

#[test]
fn only_a_plain_yes_is_affirmative() {
    assert!(is_affirmative("y"));
    assert!(is_affirmative("  Y \n"));
    assert!(!is_affirmative("yes"));
    assert!(!is_affirmative("n"));
    assert!(!is_affirmative(""));
    assert!(!is_affirmative("\n"));
}

#[test]
fn only_changed_entries_without_yes_need_an_answer() {
    assert!(needs_answer(&EntryStatus::Changed, false));
    assert!(!needs_answer(&EntryStatus::Changed, true));
    assert!(!needs_answer(&EntryStatus::Unchanged, false));
    assert!(!needs_answer(&EntryStatus::Unavailable, false));
}

#[test]
fn refresh_steps_keep_accept_or_fall_back_to_the_cache() {
    let mut plan = RefreshPlan::new();
    let a = entry("a", "/a.yml", "a");
    let same = Some(("a".to_string(), "a".to_string()));
    assert!(matches!(refresh_step(&mut plan, 0, &a, same, false, None, None), RefreshAction::Kept));

    let b = entry("b", "/b.yml", "b");
    let changed = Some(("b2".to_string(), "b2".to_string()));
    assert!(matches!(
        refresh_step(&mut plan, 1, &b, changed.clone(), false, Some("n\n".to_string()), None),
        RefreshAction::NeedCache
    ));
    assert_eq!(plan.updated.len(), 1);
    assert!(matches!(
        refresh_step(&mut plan, 1, &b, changed, false, Some("n\n".to_string()), Some("b".to_string())),
        RefreshAction::Declined
    ));
    assert!(!plan.any_changed);

    let c = entry("c", "/c.yml", "c");
    let changed_c = Some(("c2".to_string(), "c2".to_string()));
    assert!(matches!(
        refresh_step(&mut plan, 2, &c, changed_c, false, Some(" Y\n".to_string()), None),
        RefreshAction::Accepted
    ));
    assert!(plan.any_changed);

    let d = entry("d", "/d.yml", "d");
    assert!(matches!(
        refresh_step(&mut plan, 3, &d, None, true, None, Some("cached d".to_string())),
        RefreshAction::Unavailable
    ));

    let api = entry("api", "openapi:spec.json", "old spec");
    let new_api = Some(("generated".to_string(), "new spec".to_string()));
    assert!(matches!(refresh_step(&mut plan, 4, &api, new_api, true, None, None), RefreshAction::Accepted));

    assert_eq!(
        plan.updated,
        vec![
            ("a".to_string(), "/a.yml".to_string(), "a".to_string()),
            ("b".to_string(), "/b.yml".to_string(), "b".to_string()),
            ("c".to_string(), "/c.yml".to_string(), "c2".to_string()),
            ("d".to_string(), "/d.yml".to_string(), "cached d".to_string()),
            ("api".to_string(), "openapi:spec.json".to_string(), "generated".to_string()),
        ]
    );
    assert_eq!(plan.raw_overrides, vec![(4, "new spec".to_string())]);
}

#[test]
fn update_steps_record_every_entry() {
    let mut plan = RefreshPlan::new();
    let a = entry("a", "/a.yml", "a");
    assert!(matches!(update_step(&mut plan, 0, &a, Some(("a2".to_string(), "a2".to_string())), None), RefreshAction::Kept));
    let api = entry("api", "openapi:spec.json", "x");
    assert!(matches!(
        update_step(&mut plan, 1, &api, Some(("gen".to_string(), "raw".to_string())), None),
        RefreshAction::Accepted
    ));
    let gone = entry("gone", "/gone.yml", "g");
    assert!(matches!(update_step(&mut plan, 2, &gone, None, None), RefreshAction::NeedCache));
    assert!(matches!(update_step(&mut plan, 2, &gone, None, Some("cached".to_string())), RefreshAction::Unavailable));
    assert_eq!(
        plan.updated,
        vec![
            ("a".to_string(), "/a.yml".to_string(), "a2".to_string()),
            ("api".to_string(), "openapi:spec.json".to_string(), "gen".to_string()),
            ("gone".to_string(), "/gone.yml".to_string(), "cached".to_string()),
        ]
    );
    assert_eq!(plan.raw_overrides, vec![(1, "raw".to_string())]);
}
