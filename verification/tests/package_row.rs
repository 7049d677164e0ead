use uad::label::prettify_pkg_id;
use uad::lists::{PackageState, Removal, UadList};
use uad::package_row::{CorePackage, PackageRow};

#[test]
fn variant_suffix_beats_bare_last_segment() {
    assert_eq!(
        prettify_pkg_id("com.google.android.youtube.tv"),
        "YouTube (TV)"
    );
    assert_eq!(
        prettify_pkg_id("com.google.android.youtube.tvmusic"),
        "YouTube Music (TV)"
    );
    assert_eq!(prettify_pkg_id("com.android.tv.settings"), "Settings (TV)");
}

#[test]
fn generic_segments_are_skipped() {
    assert_eq!(prettify_pkg_id("com.google.android.apps.photos"), "Photos");
    assert_eq!(prettify_pkg_id("com.google.android.backdrop"), "Backdrop");
}

#[test]
fn known_segments_expand() {
    assert_eq!(
        prettify_pkg_id("com.google.android.gms"),
        "Google Play services"
    );
    assert_eq!(prettify_pkg_id("com.android.vending"), "Google Play Store");
    assert_eq!(prettify_pkg_id("com.google.android.tts"), "Text-to-Speech");
    assert_eq!(prettify_pkg_id("com.android.systemui"), "System UI");
}

#[test]
fn falls_back_when_nothing_meaningful_is_left() {
    assert_eq!(prettify_pkg_id("com.android.phone"), "Phone");
    assert_eq!(prettify_pkg_id("android"), "Android");
}

#[test]
fn camel_and_separator_splitting_still_works() {
    assert_eq!(prettify_pkg_id("com.lonelycatgames.Xplore"), "Xplore");
    assert_eq!(prettify_pkg_id("com.example.myCoolThing"), "My Cool Thing");
    assert_eq!(prettify_pkg_id("com.example.two_words"), "Two Words");
}

#[test]
fn top_level_domain_never_matters() {
    assert_eq!(
        prettify_pkg_id("com.netflix.ninja"),
        prettify_pkg_id("org.netflix.ninja")
    );
    assert_eq!(prettify_pkg_id("org.netflix.ninja"), "Ninja");
}

#[test]
fn nameless_ids_fall_back_to_last_segment() {
    assert_eq!(prettify_pkg_id("com.android.apps.tv"), "Tv");
    assert_eq!(prettify_pkg_id("com.google.android.apps.tv"), "Google (TV)");
    assert_eq!(prettify_pkg_id("com.android.app.lite"), "Lite");
}

#[test]
fn glued_tv_prefix_needs_three_bytes() {
    // "tvab" leaves two bytes after "tv": not a glued prefix.
    assert_eq!(prettify_pkg_id("com.example.tvab"), "Tvab");
    // One non-ASCII character of three bytes is enough.
    assert_eq!(prettify_pkg_id("com.android.tv\u{20ac}"), "\u{20ac} (TV)");
    assert_eq!(prettify_pkg_id("com.example.tv\u{20ac}"), "Example \u{20ac} (TV)");
    assert_eq!(prettify_pkg_id("com.example.tvguide"), "Example Guide (TV)");
}

#[test]
fn separators_only_segment_is_kept_as_is() {
    assert_eq!(prettify_pkg_id("com.__"), "__");
    assert_eq!(prettify_pkg_id(""), "");
    assert_eq!(prettify_pkg_id("com.my-app_name"), "My App Name");
}

#[test]
fn unicode_uppercase_mapping_is_used() {
    // German sharp s uppercases to two characters.
    assert_eq!(prettify_pkg_id("com.example.\u{df}trasse"), "SStrasse");
    assert_eq!(prettify_pkg_id("com.example.\u{e9}cole"), "\u{c9}cole");
}

#[test]
fn variant_applies_after_last_word_only_once() {
    assert_eq!(prettify_pkg_id("com.google.android.wear.gmail"), "Gmail (Wear)");
    assert_eq!(prettify_pkg_id("com.example.go.maps.lite"), "Maps (Lite)");
}

fn row(state: PackageState, removal: Removal) -> PackageRow {
    PackageRow::new(
        "com.google.android.gms",
        "Core services\r\nsecond line",
        removal,
        state,
        UadList::Google,
        false,
        true,
    )
}

#[test]
fn new_row_is_system_without_friendly_name() {
    let r = row(PackageState::Enabled, Removal::Recommended);
    assert_eq!(r.name, "com.google.android.gms");
    assert_eq!(r.friendly_name, "");
    assert_eq!(r.description, "Core services\r\nsecond line");
    assert_eq!(r.list, UadList::Google);
    assert!(!r.selected);
    assert!(r.current);
    assert!(r.is_system);
}

#[test]
fn display_name_prefers_friendly_name() {
    let mut r = row(PackageState::Enabled, Removal::Recommended);
    assert_eq!(r.display_name(), "Google Play services");
    r.friendly_name = "Play Services".to_string();
    assert_eq!(r.display_name(), "Play Services");
}

#[test]
fn description_line_is_first_line() {
    let mut r = row(PackageState::Enabled, Removal::Recommended);
    assert_eq!(r.description_line(), Some("Core services".to_string()));
    r.description = "[No description] yet".to_string();
    assert_eq!(r.description_line(), None);
    r.description = String::new();
    assert_eq!(r.description_line(), None);
    r.description = "ends with cr\r".to_string();
    assert_eq!(r.description_line(), Some("ends with cr\r".to_string()));
    r.description = "\nonly second".to_string();
    assert_eq!(r.description_line(), Some(String::new()));
}

#[test]
fn unsafe_enabled_packages_need_expert_mode() {
    let r = row(PackageState::Enabled, Removal::Unsafe);
    assert!(!r.is_unlocked(false));
    assert!(r.is_unlocked(true));
    assert!(!r.is_toggleable(false, 30));
    assert!(r.is_toggleable(true, 30));
    let d = row(PackageState::Disabled, Removal::Unsafe);
    assert!(d.is_unlocked(false));
}

#[test]
fn toggle_depends_on_state_and_sdk() {
    assert!(!row(PackageState::Enabled, Removal::Recommended).is_toggleable(false, 22));
    assert!(row(PackageState::Enabled, Removal::Recommended).is_toggleable(false, 23));
    assert!(row(PackageState::Disabled, Removal::Recommended).is_toggleable(false, 1));
    assert!(!row(PackageState::Uninstalled, Removal::Recommended).is_toggleable(true, 30));
    assert!(!row(PackageState::All, Removal::Recommended).is_toggleable(true, 30));
}

#[test]
fn state_labels() {
    assert_eq!(row(PackageState::Enabled, Removal::Advanced).state_label(), "Enabled");
    assert_eq!(row(PackageState::Disabled, Removal::Advanced).state_label(), "Disabled");
    assert_eq!(
        row(PackageState::Uninstalled, Removal::Advanced).state_label(),
        "Uninstalled"
    );
    assert_eq!(row(PackageState::All, Removal::Advanced).state_label(), "Error");
}

#[test]
fn core_package_round_trip() {
    let core = CorePackage {
        name: "com.example.app".to_string(),
        description: "An app".to_string(),
        removal: Removal::Expert,
        state: PackageState::Disabled,
        list: UadList::Oem,
    };
    let r = PackageRow::from_core(&core);
    assert!(!r.selected && !r.current && r.is_system);
    assert_eq!(r.friendly_name, "");
    let back = r.to_core();
    assert_eq!(back.name, core.name);
    assert_eq!(back.description, core.description);
    assert_eq!(back.removal, core.removal);
    assert_eq!(back.state, core.state);
    assert_eq!(back.list, core.list);
}

#[test]
fn known_segments_ignore_ascii_case() {
    assert_eq!(prettify_pkg_id("com.google.android.GMS"), "Google Play services");
    assert_eq!(prettify_pkg_id("com.android.Vending"), "Google Play Store");
}

#[test]
fn generic_segment_insertion_keeps_label() {
    assert_eq!(
        prettify_pkg_id("com.netflix.app.ninja"),
        prettify_pkg_id("com.netflix.ninja")
    );
    assert_eq!(
        prettify_pkg_id("com.android.google.youtube.tv"),
        prettify_pkg_id("com.google.youtube.tv")
    );
}

#[test]
fn title_casing_its_own_output_changes_nothing() {
    for id in [
        "com.example.myCoolThing",
        "com.example.two_words",
        "com.example.\u{df}trasse",
        "com.lonelycatgames.Xplore",
        "com.example.\u{aa}rea",
    ] {
        let once = prettify_pkg_id(id);
        assert_eq!(prettify_pkg_id(&format!("com.{once}")), once);
    }
}
