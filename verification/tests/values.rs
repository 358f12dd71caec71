use cmake_tui::entry::{CacheEntry, EntryType};
use cmake_tui::mutator::{cycle_enum, toggle_bool};

fn strings(items: &[&str]) -> Vec<String> {
    items.iter().map(|s| s.to_string()).collect()
}

#[test]
fn cycle_steps_to_the_next_allowed_value() {
    let allowed = strings(&["A", "B", "C"]);
    assert_eq!(cycle_enum(&allowed, "A"), "B");
    assert_eq!(cycle_enum(&allowed, "B"), "C");
}

#[test]
fn cycle_wraps_from_the_last_to_the_first() {
    let allowed = strings(&["A", "B", "C"]);
    assert_eq!(cycle_enum(&allowed, "C"), "A");
}

#[test]
fn cycle_restarts_at_the_first_for_an_unknown_value() {
    let allowed = strings(&["A", "B", "C"]);
    assert_eq!(cycle_enum(&allowed, "Z"), "A");
    assert_eq!(cycle_enum(&allowed, ""), "A");
    assert_eq!(cycle_enum(&allowed, "a"), "A");
}

#[test]
fn cycle_without_allowed_values_keeps_the_value() {
    assert_eq!(cycle_enum(&Vec::new(), "X"), "X");
}

#[test]
fn cycle_with_one_allowed_value_stays_on_it() {
    let allowed = strings(&["only"]);
    assert_eq!(cycle_enum(&allowed, "only"), "only");
    assert_eq!(cycle_enum(&allowed, "other"), "only");
}

#[test]
fn cycle_goes_by_the_first_of_equal_values() {
    let allowed = strings(&["A", "B", "A", "C"]);
    assert_eq!(cycle_enum(&allowed, "A"), "B");
}

#[test]
fn cycle_result_is_always_an_allowed_value() {
    let allowed = strings(&["Debug", "Release", "MinSizeRel"]);
    for current in ["Debug", "Release", "MinSizeRel", "", "debug", "x"] {
        assert!(allowed.contains(&cycle_enum(&allowed, current)));
    }
}

#[test]
fn toggle_maps_each_on_spelling_to_its_off_spelling() {
    assert_eq!(toggle_bool("ON"), "OFF");
    assert_eq!(toggle_bool("TRUE"), "FALSE");
    assert_eq!(toggle_bool("YES"), "NO");
    assert_eq!(toggle_bool("Y"), "N");
    assert_eq!(toggle_bool("1"), "0");
}

#[test]
fn toggle_maps_each_off_spelling_to_its_on_spelling() {
    assert_eq!(toggle_bool("OFF"), "ON");
    assert_eq!(toggle_bool("FALSE"), "TRUE");
    assert_eq!(toggle_bool("NO"), "YES");
    assert_eq!(toggle_bool("N"), "Y");
    assert_eq!(toggle_bool("0"), "1");
}

#[test]
fn toggle_ignores_the_case_of_the_value() {
    assert_eq!(toggle_bool("on"), "OFF");
    assert_eq!(toggle_bool("On"), "OFF");
    assert_eq!(toggle_bool("tRuE"), "FALSE");
    assert_eq!(toggle_bool("false"), "TRUE");
    assert_eq!(toggle_bool("y"), "N");
    assert_eq!(toggle_bool("Ignore"), "ON");
    assert_eq!(toggle_bool("NOTFOUND"), "ON");
}

#[test]
fn toggle_is_a_round_trip_on_paired_spellings() {
    for spelling in ["ON", "OFF", "TRUE", "FALSE", "YES", "NO", "Y", "N", "1", "0"] {
        assert_eq!(toggle_bool(&toggle_bool(spelling)), spelling);
        assert_ne!(toggle_bool(spelling), spelling);
    }
    assert_eq!(toggle_bool(&toggle_bool("on")), "ON");
}

#[test]
fn toggle_collapses_unset_values_to_on() {
    assert_eq!(toggle_bool("ignore"), "ON");
    assert_eq!(toggle_bool("notfound"), "ON");
    assert_eq!(toggle_bool(""), "ON");
    assert_ne!(toggle_bool("ON"), "ignore");
    assert_eq!(toggle_bool(&toggle_bool("ignore")), "OFF");
}

#[test]
fn toggle_leaves_other_values_unchanged() {
    assert_eq!(toggle_bool("banana"), "banana");
    assert_eq!(toggle_bool("ONN"), "ONN");
    assert_eq!(toggle_bool(" on"), " on");
    assert_eq!(toggle_bool("FOO-NOTFOUND"), "FOO-NOTFOUND");
    assert_eq!(toggle_bool("2"), "2");
    assert_eq!(toggle_bool("\u{212a}"), "\u{212a}");
}

#[test]
fn new_entry_is_plain_and_unmodified() {
    let e = CacheEntry::new("A".to_string(), EntryType::Bool, "d".to_string(), "ON".to_string());
    assert_eq!(e.name, "A");
    assert_eq!(e.entry_type, EntryType::Bool);
    assert_eq!(e.desc, "d");
    assert_eq!(e.value, "ON");
    assert_eq!(e.original, "ON");
    assert!(e.values.is_empty());
    assert!(!e.advanced);
    assert!(!e.is_modified());
}

#[test]
fn entry_toggle_changes_only_the_value() {
    let mut e = CacheEntry::new("A".to_string(), EntryType::Bool, "d".to_string(), "on".to_string());
    e.toggle_bool();
    assert_eq!(e.value, "OFF");
    assert_eq!(e.original, "on");
    assert_eq!(e.name, "A");
    assert!(e.is_modified());
}

#[test]
fn modified_compares_the_exact_text() {
    let mut e = CacheEntry::new("A".to_string(), EntryType::Bool, String::new(), "on".to_string());
    e.toggle_bool();
    e.toggle_bool();
    assert_eq!(e.value, "ON");
    assert!(e.is_modified());
    let mut f = CacheEntry::new("A".to_string(), EntryType::Bool, String::new(), "ON".to_string());
    f.toggle_bool();
    f.toggle_bool();
    assert!(!f.is_modified());
}

#[test]
fn set_enum_values_splits_at_semicolons() {
    let mut e = CacheEntry::new("A".to_string(), EntryType::Str, String::new(), "x".to_string());
    e.set_enum_values("Debug;Release;;Min Size");
    assert_eq!(e.values, strings(&["Debug", "Release", "", "Min Size"]));
    assert_eq!(e.entry_type, EntryType::Str);
    e.set_enum_values("single");
    assert_eq!(e.values, strings(&["single"]));
    e.set_enum_values("");
    assert_eq!(e.values, strings(&[""]));
}

#[test]
fn entry_cycle_uses_its_own_values() {
    let mut e = CacheEntry::new("A".to_string(), EntryType::Enum, String::new(), "b".to_string());
    e.set_enum_values("a;b;c");
    e.cycle_enum();
    assert_eq!(e.value, "c");
    e.cycle_enum();
    assert_eq!(e.value, "a");
}

#[test]
fn step_value_goes_by_the_kind() {
    let mut b = CacheEntry::new("B".to_string(), EntryType::Bool, String::new(), "ON".to_string());
    b.step_value();
    assert_eq!(b.value, "OFF");
    let mut e = CacheEntry::new("E".to_string(), EntryType::Enum, String::new(), "x".to_string());
    e.set_enum_values("x;y");
    e.step_value();
    assert_eq!(e.value, "y");
    let mut s = CacheEntry::new("S".to_string(), EntryType::Str, String::new(), "ON".to_string());
    s.step_value();
    assert_eq!(s.value, "ON");
    let mut p = CacheEntry::new("P".to_string(), EntryType::Filepath, String::new(), "ON".to_string());
    p.step_value();
    assert_eq!(p.value, "ON");
}

#[test]
fn type_tokens_name_their_kinds() {
    assert_eq!(EntryType::from_str("BOOL"), Some(EntryType::Bool));
    assert_eq!(EntryType::from_str("FILEPATH"), Some(EntryType::Filepath));
    assert_eq!(EntryType::from_str("STRING"), Some(EntryType::Str));
    assert_eq!(EntryType::from_str("STATIC"), Some(EntryType::Static));
    assert_eq!(EntryType::from_str("PATH"), Some(EntryType::Dirpath));
    assert_eq!(EntryType::from_str("INTERNAL"), None);
    assert_eq!(EntryType::from_str("bool"), None);
    assert_eq!(EntryType::from_str(""), None);
    assert_eq!(EntryType::from_str("BOO"), None);
    assert_eq!(EntryType::from_str("BOOLS"), None);
}

#[test]
fn kinds_are_shown_by_name() {
    assert_eq!(EntryType::Bool.to_string(), "Bool");
    assert_eq!(EntryType::Str.to_string(), "Str");
    assert_eq!(EntryType::Enum.to_string(), "Enum");
    assert_eq!(EntryType::Filepath.to_string(), "Filepath");
    assert_eq!(EntryType::Dirpath.to_string(), "Dirpath");
    assert_eq!(EntryType::Int.to_string(), "Int");
    assert_eq!(EntryType::INTERNAL.to_string(), "INTERNAL");
    assert_eq!(EntryType::Static.to_string(), "Static");
}

#[test]
fn no_character_beyond_ascii_lowers_into_a_spelling() {
    let letters: Vec<char> = "ontruyesfalignd".chars().collect();
    for c in (0..=0x10FFFFu32).filter_map(char::from_u32) {
        if c.is_ascii() {
            continue;
        }
        let lowered: Vec<char> = c.to_lowercase().collect();
        assert!(!lowered.iter().all(|l| letters.contains(l)), "{:?}", c);
    }
}

#[test]
fn toggle_agrees_with_lower_casing_by_the_standard_library() {
    let table = [
        ("on", "OFF"),
        ("true", "FALSE"),
        ("yes", "NO"),
        ("y", "N"),
        ("1", "0"),
        ("off", "ON"),
        ("false", "TRUE"),
        ("no", "YES"),
        ("n", "Y"),
        ("0", "1"),
        ("ignore", "ON"),
        ("notfound", "ON"),
        ("", "ON"),
    ];
    let samples = [
        "ON", "on", "oN", "TRUE", "True", "YES", "yEs", "Y", "y", "1", "OFF", "Off", "FALSE",
        "false", "NO", "No", "N", "n", "0", "IGNORE", "ignore", "NotFound", "", "banana",
        "\u{212a}", "O\u{212a}", "\u{130}GNORE", "\u{3a9}N", "on ", "o n", "\u{ff2f}\u{ff2e}",
    ];
    for value in samples {
        let lowered = value.to_lowercase();
        let expected = table
            .iter()
            .find(|(from, _)| *from == lowered)
            .map(|(_, to)| to.to_string())
            .unwrap_or(value.to_string());
        assert_eq!(toggle_bool(value), expected, "{:?}", value);
    }
}
