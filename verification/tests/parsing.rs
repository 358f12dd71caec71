use cmake_tui::entry::{CacheEntry, EntryType};
use cmake_tui::parser::{
    annotate, comment_text, declare, fields_of, load_entries, parse_cmake_cache, CacheParser,
    LoadError,
};
use cmake_tui::table::EntryTable;

fn strings(items: &[&str]) -> Vec<String> {
    items.iter().map(|s| s.to_string()).collect()
}

fn groups(items: &[Option<&str>]) -> Option<Vec<Option<String>>> {
    Some(items.iter().map(|g| g.map(|s| s.to_string())).collect())
}

fn names(entries: &[CacheEntry]) -> Vec<String> {
    entries.iter().map(|e| e.name.clone()).collect()
}

#[test]
fn end_to_end_enumeration_overrides_declared_type() {
    let input = "// Build type\nCMAKE_BUILD_TYPE:STRING=Debug\n# INTERNAL cache entries\nCMAKE_BUILD_TYPE-STRINGS:INTERNAL=Debug;Release\n";
    let mut entries = parse_cmake_cache(input).unwrap();
    assert_eq!(entries.len(), 1);
    let e = &mut entries[0];
    assert_eq!(e.name, "CMAKE_BUILD_TYPE");
    assert_eq!(e.entry_type, EntryType::Enum);
    assert_eq!(e.value, "Debug");
    assert_eq!(e.values, strings(&["Debug", "Release"]));
    assert_eq!(e.desc.trim_start(), "Build type");
    assert_eq!(e.desc, " Build type");
    assert!(!e.advanced);
    assert!(!e.is_modified());
    e.cycle_enum();
    assert_eq!(e.value, "Release");
    assert!(e.is_modified());
}

#[test]
fn comment_without_blank_gives_description_as_written() {
    let entries = parse_cmake_cache("//Build type\nCMAKE_BUILD_TYPE:STRING=Debug\n").unwrap();
    assert_eq!(entries[0].desc, "Build type");
}

#[test]
fn grammars_compile() {
    assert!(CacheParser::new().is_ok());
}

#[test]
fn declaration_is_recovered_exactly() {
    let entries = parse_cmake_cache("_My_Var9:FILEPATH= /usr/bin/cc -O2 =x=y \n").unwrap();
    assert_eq!(entries.len(), 1);
    assert_eq!(entries[0].name, "_My_Var9");
    assert_eq!(entries[0].entry_type, EntryType::Filepath);
    assert_eq!(entries[0].value, " /usr/bin/cc -O2 =x=y ");
    assert_eq!(entries[0].original, " /usr/bin/cc -O2 =x=y ");
    assert_eq!(entries[0].desc, "");
}

#[test]
fn each_type_token_gives_its_kind() {
    let entries =
        parse_cmake_cache("A:BOOL=ON\nB:STRING=s\nC:FILEPATH=/f\nD:PATH=/d\nE:UNINITIALIZED=u\nF:INTERNAL=i\n")
            .unwrap();
    let kinds: Vec<EntryType> = entries.iter().map(|e| e.entry_type).collect();
    assert_eq!(
        kinds,
        vec![
            EntryType::Bool,
            EntryType::Str,
            EntryType::Filepath,
            EntryType::Dirpath,
            EntryType::Str,
            EntryType::Str
        ]
    );
}

#[test]
fn empty_value_is_a_value() {
    let entries = parse_cmake_cache("A:STRING=\n").unwrap();
    assert_eq!(entries.len(), 1);
    assert_eq!(entries[0].value, "");
}

#[test]
fn lines_that_are_no_declarations_are_ignored() {
    let input = "# a remark\n\nA:BOOL=ON\n9A:BOOL=ON\nB:bool=ON\nC BOOL=ON\nD:BOOL\n:BOOL=x\n A:BOOL=OFF\nE-F:BOOL=ON\n";
    let entries = parse_cmake_cache(input).unwrap();
    assert_eq!(names(&entries), strings(&["A"]));
    assert_eq!(entries[0].value, "ON");
}

#[test]
fn comment_lines_become_the_description() {
    let input = "//first\n//second\nA:BOOL=ON\nB:BOOL=OFF\n//third\nC:BOOL=ON\n";
    let entries = parse_cmake_cache(input).unwrap();
    assert_eq!(entries[0].desc, "firstsecond");
    assert_eq!(entries[1].desc, "");
    assert_eq!(entries[2].desc, "third");
}

#[test]
fn repeated_markers_are_all_stripped() {
    let entries = parse_cmake_cache("////deep//er\n///odd\nA:BOOL=ON\n").unwrap();
    assert_eq!(entries[0].desc, "deep//er/odd");
}

#[test]
fn ignored_lines_do_not_end_a_description() {
    let entries = parse_cmake_cache("//one\n\n# remark\n//two\nA:BOOL=ON\n").unwrap();
    assert_eq!(entries[0].desc, "onetwo");
}

#[test]
fn static_declarations_never_appear() {
    let input = "//internal\nS:STATIC=1\nA:BOOL=ON\n# INTERNAL cache entries\nS-ADVANCED:INTERNAL=1\nS-STRINGS:INTERNAL=a;b\n";
    let entries = parse_cmake_cache(input).unwrap();
    assert_eq!(names(&entries), strings(&["A"]));
    assert_eq!(entries[0].desc, "");
    assert!(entries.iter().all(|e| e.entry_type != EntryType::Static));
}

#[test]
fn static_declaration_does_not_remove_an_earlier_entry() {
    let entries = parse_cmake_cache("S:BOOL=ON\nS:STATIC=1\n").unwrap();
    assert_eq!(entries.len(), 1);
    assert_eq!(entries[0].entry_type, EntryType::Bool);
    assert_eq!(entries[0].value, "ON");
}

#[test]
fn last_declaration_of_a_name_wins() {
    let entries = parse_cmake_cache("//old\nA:BOOL=ON\n//new\nA:STRING=text\n").unwrap();
    assert_eq!(entries.len(), 1);
    assert_eq!(entries[0].entry_type, EntryType::Str);
    assert_eq!(entries[0].value, "text");
    assert_eq!(entries[0].desc, "new");
}

#[test]
fn entries_come_in_the_order_of_their_names() {
    let entries = parse_cmake_cache("b:BOOL=ON\nB:BOOL=ON\n_a:BOOL=ON\nAB:BOOL=ON\nA:BOOL=ON\nC:BOOL=ON\na:BOOL=ON\n")
        .unwrap();
    assert_eq!(names(&entries), strings(&["A", "AB", "B", "C", "_a", "a", "b"]));
    let mut sorted = names(&entries);
    sorted.sort();
    assert_eq!(names(&entries), sorted);
}

#[test]
fn without_sentinel_everything_is_declarations() {
    let entries = parse_cmake_cache("A:BOOL=ON\nA-ADVANCED:INTERNAL=1\n").unwrap();
    assert_eq!(names(&entries), strings(&["A"]));
    assert!(!entries[0].advanced);
}

#[test]
fn sentinel_must_be_a_whole_line() {
    let input = "A:BOOL=ON\n## INTERNAL cache entries\nA-ADVANCED:INTERNAL=1\nB:BOOL=ON\n";
    let entries = parse_cmake_cache(input).unwrap();
    assert_eq!(names(&entries), strings(&["A", "B"]));
    assert!(!entries[0].advanced);
}

#[test]
fn only_the_first_sentinel_parts_the_sections() {
    let input = "A:BOOL=ON\n# INTERNAL cache entries\nB:BOOL=ON\n# INTERNAL cache entries\nA-ADVANCED:INTERNAL=1\n";
    let entries = parse_cmake_cache(input).unwrap();
    assert_eq!(names(&entries), strings(&["A"]));
    assert!(entries[0].advanced);
}

#[test]
fn advanced_flag_marks_the_named_entry() {
    let input = "A:BOOL=ON\nB:BOOL=ON\n# INTERNAL cache entries\nB-ADVANCED:INTERNAL=1\nA-ADVANCED:INTERNAL=0\nC-ADVANCED:INTERNAL=1\n";
    let entries = parse_cmake_cache(input).unwrap();
    assert_eq!(names(&entries), strings(&["A", "B"]));
    assert!(!entries[0].advanced);
    assert!(entries[1].advanced);
}

#[test]
fn value_list_overrides_any_declared_type() {
    let input = "A:BOOL=ON\nB:PATH=/x\n# INTERNAL cache entries\nA-STRINGS:INTERNAL=ON;OFF;AUTO\nA-ADVANCED:INTERNAL=1\nZ-STRINGS:INTERNAL=a;b\nB-STRINGS:INTERNAL=\n";
    let entries = parse_cmake_cache(input).unwrap();
    assert_eq!(entries[0].entry_type, EntryType::Enum);
    assert_eq!(entries[0].values, strings(&["ON", "OFF", "AUTO"]));
    assert!(entries[0].advanced);
    assert_eq!(entries[0].value, "ON");
    assert_eq!(entries[1].entry_type, EntryType::Dirpath);
    assert!(entries[1].values.is_empty());
}

#[test]
fn carriage_returns_before_line_feeds_are_line_endings() {
    let entries =
        parse_cmake_cache("//note\r\nA:STRING=v\r\n# INTERNAL cache entries\r\nA-ADVANCED:INTERNAL=1\r\n").unwrap();
    assert_eq!(entries.len(), 1);
    assert_eq!(entries[0].value, "v");
    assert_eq!(entries[0].desc, "note");
    assert!(entries[0].advanced);
}

#[test]
fn last_line_needs_no_line_feed() {
    let entries = parse_cmake_cache("A:STRING=one\nB:STRING=two").unwrap();
    assert_eq!(entries.len(), 2);
    assert_eq!(entries[1].value, "two");
}

#[test]
fn empty_text_has_no_entries() {
    assert!(parse_cmake_cache("").unwrap().is_empty());
    assert!(parse_cmake_cache("\n\n").unwrap().is_empty());
}

#[test]
fn values_keep_text_beyond_ascii() {
    let entries = parse_cmake_cache("//Gr\u{fc}\u{df}e\nA:STRING=\u{e9}t\u{e9} \u{1f600}\n").unwrap();
    assert_eq!(entries[0].value, "\u{e9}t\u{e9} \u{1f600}");
    assert_eq!(entries[0].desc, "Gr\u{fc}\u{df}e");
}

#[test]
fn parser_and_sections_agree_with_the_whole() {
    let parser = CacheParser::new().unwrap();
    let lines = strings(&["//d", "A:BOOL=ON", "B:STRING=x", "# INTERNAL cache entries", "B-ADVANCED:INTERNAL=1"]);
    let mut table = parser.parse_external_section(&lines, 3);
    assert_eq!(table.len(), 2);
    assert_eq!(table.find("B"), Some(1));
    assert_eq!(table.find("C"), None);
    assert!(!table.get(1).advanced);
    parser.parse_internal_section(&lines, 4, &mut table);
    assert!(table.get(1).advanced);
    let whole = parser.parse_cache("//d\nA:BOOL=ON\nB:STRING=x\n# INTERNAL cache entries\nB-ADVANCED:INTERNAL=1\n");
    let entries = whole.into_entries();
    assert_eq!(names(&entries), strings(&["A", "B"]));
    assert_eq!(entries[0].desc, "d");
    assert!(entries[1].advanced);
}

#[test]
fn comment_text_strips_markers() {
    assert_eq!(comment_text("//abc"), Some("abc".to_string()));
    assert_eq!(comment_text("// abc"), Some(" abc".to_string()));
    assert_eq!(comment_text("//"), Some(String::new()));
    assert_eq!(comment_text("////a//b"), Some("a//b".to_string()));
    assert_eq!(comment_text("///a"), Some("/a".to_string()));
    assert_eq!(comment_text("/abc"), None);
    assert_eq!(comment_text(" //abc"), None);
    assert_eq!(comment_text(""), None);
    assert_eq!(comment_text("A:BOOL=ON"), None);
}

#[test]
fn fields_need_every_group() {
    assert_eq!(fields_of(&groups(&[Some("a:b"), Some("a"), Some("b")]), 2), Some(strings(&["a", "b"])));
    assert_eq!(fields_of(&groups(&[Some("a:b"), Some("a"), None]), 2), None);
    assert_eq!(fields_of(&groups(&[Some("a:b"), Some("a")]), 2), None);
    assert_eq!(fields_of(&groups(&[Some("a:b"), Some("a"), Some("b"), Some("c")]), 2), None);
    assert_eq!(fields_of(&groups(&[Some("whole")]), 0), Some(Vec::new()));
    assert_eq!(fields_of(&None, 2), None);
}

#[test]
fn declare_applies_a_match() {
    let mut table = EntryTable::new();
    let mut pending = "about".to_string();
    declare(&mut table, &mut pending, &groups(&[Some("N:BOOL=ON"), Some("N"), Some("BOOL"), Some("ON")]));
    assert_eq!(pending, "");
    assert_eq!(table.len(), 1);
    assert_eq!(table.get(0).name, "N");
    assert_eq!(table.get(0).desc, "about");
    assert_eq!(table.get(0).entry_type, EntryType::Bool);
    assert_eq!(table.get(0).value, "ON");

    let mut pending = "kept".to_string();
    declare(&mut table, &mut pending, &None);
    assert_eq!(pending, "kept");
    assert_eq!(table.len(), 1);

    declare(&mut table, &mut pending, &groups(&[Some("S:STATIC=1"), Some("S"), Some("STATIC"), Some("1")]));
    assert_eq!(pending, "");
    assert_eq!(table.len(), 1);
}

#[test]
fn annotate_applies_both_matches() {
    let mut table = EntryTable::new();
    table.insert(CacheEntry::new("A".to_string(), EntryType::Str, String::new(), "x".to_string()));
    table.insert(CacheEntry::new("B".to_string(), EntryType::Str, String::new(), "y".to_string()));
    annotate(&mut table, &groups(&[Some("w"), Some("A"), Some("x;z")]), &groups(&[Some("w"), Some("B")]));
    assert_eq!(table.get(0).entry_type, EntryType::Enum);
    assert_eq!(table.get(0).values, strings(&["x", "z"]));
    assert!(!table.get(0).advanced);
    assert_eq!(table.get(1).entry_type, EntryType::Str);
    assert!(table.get(1).advanced);
    annotate(&mut table, &groups(&[Some("w"), Some("C"), Some("q")]), &None);
    assert_eq!(table.len(), 2);
    assert_eq!(table.get(1).entry_type, EntryType::Str);
}

#[test]
fn table_keeps_names_in_order_and_unique() {
    let mut table = EntryTable::new();
    for (name, value) in [("m", "1"), ("b", "2"), ("z", "3"), ("a", "4"), ("m", "5"), ("ma", "6"), ("", "7")] {
        table.insert(CacheEntry::new(name.to_string(), EntryType::Str, String::new(), value.to_string()));
    }
    let entries = table.into_entries();
    assert_eq!(names(&entries), strings(&["", "a", "b", "m", "ma", "z"]));
    assert_eq!(entries[3].value, "5");
}

#[test]
fn load_parses_a_text_that_was_read() {
    let entries = load_entries(Ok("A:BOOL=ON\n".to_string()), false).unwrap();
    assert_eq!(names(&entries), strings(&["A"]));
    let entries = load_entries(Ok("A:BOOL=ON\n".to_string()), true).unwrap();
    assert_eq!(names(&entries), strings(&["A"]));
}

#[test]
fn load_fails_on_a_failed_read_when_strict() {
    match load_entries(Err("no such file".to_string()), false) {
        Err(LoadError::Io(why)) => assert_eq!(why, "no such file"),
        _ => panic!("a failed read must be reported"),
    }
}

#[test]
fn load_starts_empty_on_a_failed_read_when_lenient() {
    assert!(load_entries(Err("no such file".to_string()), true).unwrap().is_empty());
}

#[test]
fn a_large_cache_in_any_order_is_read() {
    let mut text = String::new();
    for i in (0..4000).rev() {
        text.push_str(&format!("//entry {i}\nVAR_{i:05}:STRING=value {i}\n"));
    }
    text.push_str("# INTERNAL cache entries\n");
    for i in 0..4000 {
        text.push_str(&format!("VAR_{i:05}-ADVANCED:INTERNAL=1\n"));
    }
    let entries = parse_cmake_cache(&text).unwrap();
    assert_eq!(entries.len(), 4000);
    assert_eq!(entries[0].name, "VAR_00000");
    assert_eq!(entries[0].desc, "entry 0");
    assert_eq!(entries[3999].name, "VAR_03999");
    assert_eq!(entries[3999].value, "value 3999");
    assert!(entries.iter().all(|e| e.advanced));
    assert!(entries.windows(2).all(|pair| pair[0].name < pair[1].name));
}

#[test]
fn names_with_a_hyphen_cannot_be_annotated() {
    let parser = CacheParser::new().unwrap();
    let mut table = EntryTable::new();
    table.insert(CacheEntry::new("A-B".to_string(), EntryType::Str, String::new(), "x".to_string()));
    table.insert(CacheEntry::new("A".to_string(), EntryType::Str, String::new(), "y".to_string()));
    let lines = strings(&["A-B-ADVANCED:INTERNAL=1", "A-B-STRINGS:INTERNAL=p;q", "A-STRINGS:INTERNAL=;"]);
    parser.parse_internal_section(&lines, 0, &mut table);
    let entries = table.into_entries();
    assert_eq!(names(&entries), strings(&["A", "A-B"]));
    assert!(!entries[1].advanced);
    assert!(entries[1].values.is_empty());
    assert_eq!(entries[0].entry_type, EntryType::Enum);
    assert_eq!(entries[0].values, strings(&["", ""]));
}
