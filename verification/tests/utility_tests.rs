use ajour_core::utility::format_interface_into_game_version;
use ajour_core::utility::strip_non_digits;
use ajour_core::utility::truncate;
use ajour_core::utility::versions_differ;
use ajour_core::utility::wow_path_resolution;

#[test]
fn test_interface() {
    let interface = "90001";
    assert_eq!("9.0.1", format_interface_into_game_version(interface));

    let interface = "11305";
    assert_eq!("1.13.5", format_interface_into_game_version(interface));

    let interface = "100000";
    assert_eq!("100000", format_interface_into_game_version(interface));

    let interface = "9.0.1";
    assert_eq!("9.0.1", format_interface_into_game_version(interface));
}

#[test]
fn test_wow_path_resolution() {
    let classic_addon_path =
        String::from(r"/Applications/World of Warcraft/_classic_/Interface/Addons");
    let retail_addon_path =
        String::from(r"/Applications/World of Warcraft/_retail_/Interface/Addons");
    let retail_interface_path = String::from(r"/Applications/World of Warcraft/_retail_/Interface");
    let classic_interface_path =
        String::from(r"/Applications/World of Warcraft/_classic_/Interface");
    let classic_alternate_path = String::from(r"/Applications/Wow/_classic_");

    let root_alternate_path = String::from(r"/Applications/Wow");
    let root_path = String::from(r"/Applications/World of Warcraft");

    assert!(root_path.eq(&wow_path_resolution(Some(classic_addon_path)).unwrap()));
    assert!(root_path.eq(&wow_path_resolution(Some(retail_addon_path)).unwrap()));
    assert!(root_path.eq(&wow_path_resolution(Some(retail_interface_path)).unwrap()));
    assert!(root_path.eq(&wow_path_resolution(Some(classic_interface_path)).unwrap()));
    assert!(root_alternate_path.eq(&wow_path_resolution(Some(classic_alternate_path)).unwrap()));
}

#[test]
fn path_resolution_spec_example() {
    let chosen = String::from("/Apps/WoW/_classic_/Interface/Addons");
    assert_eq!(
        wow_path_resolution(Some(chosen)).unwrap(),
        String::from("/Apps/WoW")
    );
}

#[test]
fn path_resolution_none_cases() {
    assert!(wow_path_resolution(None).is_none());
    assert!(wow_path_resolution(Some(String::from("/home/user/games"))).is_none());
    assert!(wow_path_resolution(Some(String::new())).is_none());
}

#[test]
fn path_resolution_backslashes() {
    let chosen = String::from(r"C:\Games\World of Warcraft\_retail_\Interface\Addons");
    assert_eq!(
        wow_path_resolution(Some(chosen)).unwrap(),
        String::from(r"C:\Games\World of Warcraft")
    );
}

#[test]
fn strip_non_digits_round_trip() {
    assert_eq!(strip_non_digits("213r323"), "213323");
    assert_eq!(strip_non_digits("Rematch_4_10_15.zip"), "41015");
}

#[test]
fn strip_non_digits_edges() {
    assert_eq!(strip_non_digits(""), "");
    assert_eq!(strip_non_digits("no digits at all"), "");
    assert_eq!(strip_non_digits("123456"), "123456");
}

#[test]
fn versions_differ_by_digits() {
    // The same version in two formats: the digit sequences agree.
    assert!(!versions_differ("Rematch_4_10_15", "4.10.15"));
    assert!(versions_differ("4.10.15", "4.10.16"));
    // Either side stripping to no digits falls back to raw inequality.
    assert!(versions_differ("alpha", "beta"));
    assert!(!versions_differ("alpha", "alpha"));
    assert!(versions_differ("alpha", "1.0"));
}

#[test]
fn versions_differ_symmetry_samples() {
    let pairs = [
        ("Rematch_4_10_15", "4.10.15"),
        ("4.10.15", "4.10.16"),
        ("alpha", "beta"),
        ("alpha", "1.0"),
        ("", "1"),
        ("", ""),
    ];
    for (a, b) in pairs {
        assert_eq!(versions_differ(a, b), versions_differ(b, a));
    }
}

#[test]
fn truncate_counts_characters() {
    assert_eq!(truncate("hello", 3), "hel");
    assert_eq!(truncate("hello", 5), "hello");
    assert_eq!(truncate("hello", 10), "hello");
    assert_eq!(truncate("", 4), "");
}
