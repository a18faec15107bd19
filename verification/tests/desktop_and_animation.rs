use cosmic_workspaces::animation::{AnimationState, Phase, NANOS_PER_MILLI};
use cosmic_workspaces::desktop_info::{desktop_info_for_app_ids, icon_for_app_id, DesktopEntry, DesktopInfo};

fn entry(appid: &str, wm_class: Option<&str>, icon: Option<&str>) -> DesktopEntry {
    DesktopEntry {
        path: format!("/usr/share/applications/{appid}.desktop"),
        appid: appid.to_string(),
        wm_class: wm_class.map(str::to_string),
        icon: icon.map(str::to_string),
        command: format!("{appid} %U"),
        name: format!("{appid} name"),
    }
}

fn ids(v: &[&str]) -> Vec<String> {
    v.iter().map(|s| s.to_string()).collect()
}

fn id_list(infos: &[DesktopInfo]) -> Vec<&str> {
    infos.iter().map(|d| d.id.as_str()).collect()
}

#[test]
fn entries_are_returned_in_the_order_of_the_ids() {
    let entries = vec![entry("b", None, Some("b-icon")), entry("x", None, None), entry("a", None, None)];
    let infos = desktop_info_for_app_ids(ids(&["a", "b"]), entries);
    assert_eq!(id_list(&infos), vec!["a", "b"]);
    assert_eq!(infos[0].icon.as_deref(), Some("a"));
    assert_eq!(infos[1].icon.as_deref(), Some("b-icon"));
    assert_eq!(infos[1].command, "b %U");
    assert_eq!(infos[1].path, "/usr/share/applications/b.desktop");
}

#[test]
fn unclaimed_ids_get_a_default_record() {
    let infos = desktop_info_for_app_ids(ids(&["missing", "a"]), vec![entry("a", None, None)]);
    assert_eq!(id_list(&infos), vec!["missing", "a"]);
    assert_eq!(infos[0].icon, None);
    assert_eq!(infos[0].wm_class, None);
    assert_eq!(infos[0].command, "");
    assert_eq!(infos[0].name, "");
    assert_eq!(infos[0].path, "");
}

#[test]
fn an_entry_claims_an_id_by_window_class() {
    let infos = desktop_info_for_app_ids(ids(&["Firefox"]), vec![entry("org.mozilla.firefox", Some("Firefox"), None)]);
    assert_eq!(infos.len(), 1);
    assert_eq!(infos[0].id, "org.mozilla.firefox");
    assert_eq!(infos[0].wm_class.as_deref(), Some("Firefox"));
}

#[test]
fn each_entry_claims_one_id_and_each_id_is_claimed_once() {
    // two entries for the same id: the first claims it, the second finds nothing left
    let infos = desktop_info_for_app_ids(ids(&["a", "a"]), vec![entry("a", None, Some("one")), entry("a", None, Some("two"))]);
    assert_eq!(infos.len(), 2);
    assert_eq!(infos[0].icon.as_deref(), Some("one"));
    assert_eq!(infos[1].icon.as_deref(), Some("two"));
    let infos = desktop_info_for_app_ids(ids(&["a"]), vec![entry("a", None, Some("one")), entry("a", None, Some("two"))]);
    assert_eq!(infos.len(), 1);
    assert_eq!(infos[0].icon.as_deref(), Some("one"));
}

#[test]
fn an_empty_id_is_claimed_by_an_entry_without_window_class() {
    // the window class of an entry without one compares as empty
    let infos = desktop_info_for_app_ids(ids(&[""]), vec![entry("z", None, None)]);
    assert_eq!(id_list(&infos), vec!["z"]);
}

#[test]
fn no_ids_give_no_records() {
    assert!(desktop_info_for_app_ids(Vec::new(), vec![entry("a", None, None)]).is_empty());
}

#[test]
fn icon_for_one_app_id() {
    assert_eq!(icon_for_app_id("a".to_string(), vec![entry("a", None, Some("a-icon"))]), Some("a-icon".to_string()));
    assert_eq!(icon_for_app_id("a".to_string(), vec![entry("a", None, None)]), Some("a".to_string()));
    assert_eq!(icon_for_app_id("b".to_string(), vec![entry("a", None, None)]), None);
}

#[test]
fn animation_runs_for_its_duration() {
    let mut a = AnimationState::new();
    assert!(a.is_idle());
    assert!(!a.tick(123));
    assert_eq!(a.progress_fraction(), (1, 1));
    a.set_duration_ms(100);
    a.start_opening(1_000);
    assert_eq!(a.phase(), Phase::Opening);
    assert_eq!(a.progress_fraction().0, 0);
    assert!(a.tick(1_000 + 50 * NANOS_PER_MILLI));
    assert_eq!(a.progress_fraction(), (50 * NANOS_PER_MILLI, 100 * NANOS_PER_MILLI));
    assert!(!a.tick(1_000 + 150 * NANOS_PER_MILLI));
    assert_eq!(a.progress_fraction(), (100 * NANOS_PER_MILLI, 100 * NANOS_PER_MILLI));
    // a clock reading before the start counts as no time elapsed
    a.start_closing(5_000);
    assert!(a.is_closing());
    assert!(a.tick(10));
    assert_eq!(a.progress_fraction().0, 0);
}

#[test]
fn zero_duration_selects_the_default() {
    let mut a = AnimationState::default();
    a.set_duration_ms(0);
    a.start_opening(0);
    assert!(a.tick(249 * NANOS_PER_MILLI));
    assert!(!a.tick(250 * NANOS_PER_MILLI));
    assert_eq!(Phase::default(), Phase::Idle);
}

#[test]
fn one_record_per_application_id() {
    let entries = vec![
        entry("c", Some("C"), None),
        entry("a", None, None),
        entry("other", Some("b"), None),
        entry("a", None, Some("second")),
    ];
    let infos = desktop_info_for_app_ids(ids(&["b", "a", "zz", "C", "a"]), entries);
    assert_eq!(infos.len(), 5);
    // ordered by the first id naming each record: "b" names "other" by its
    // window class, "a" names both records of "a", "C" names "c"
    assert_eq!(id_list(&infos), vec!["other", "a", "a", "zz", "c"]);
}
