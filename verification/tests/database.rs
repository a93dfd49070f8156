use biquad_studio::database::{HeadphoneDatabase, HeadphoneEntry, WalkedFile};

fn entry(name: &str, source: &str, file_path: &str) -> HeadphoneEntry {
    HeadphoneEntry { name: name.to_string(), source: source.to_string(), file_path: file_path.to_string() }
}

#[test]
fn test_database_search_case_insensitive() {
    let db = HeadphoneDatabase {
        entries: vec![
            HeadphoneEntry {
                name: "Sennheiser HD 600".to_string(),
                source: "oratory1990".to_string(),
                file_path: "oratory1990/Sennheiser HD 600/ParametricEQ.txt".to_string(),
            },
            HeadphoneEntry {
                name: "Hifiman Sundara".to_string(),
                source: "crinacle".to_string(),
                file_path: "crinacle/Hifiman Sundara/ParametricEQ.txt".to_string(),
            },
        ],
    };

    let results = db.search("HD 600");
    assert_eq!(results.len(), 1);
    assert_eq!(results[0].name, "Sennheiser HD 600");

    let results2 = db.search("sennheiser");
    assert_eq!(results2.len(), 1);

    let results3 = db.search("xyz");
    assert!(results3.is_empty());
}

#[test]
fn search_empty_query_and_unicode_case() {
    let db = HeadphoneDatabase {
        entries: vec![entry("ÄKG Ö", "s", "p"), entry("Beyer", "s", "q"), entry("äkg", "t", "r")],
    };
    assert_eq!(db.search("").len(), 3);
    let hits: Vec<&str> = db.search("ÄkG").iter().map(|e| e.source.as_str()).collect();
    assert_eq!(hits, vec!["s", "t"]);
}

#[test]
fn headphone_names_sorted_unique() {
    let db = HeadphoneDatabase {
        entries: vec![
            entry("Sundara", "a", "1"),
            entry("HD 600", "b", "2"),
            entry("Sundara", "c", "3"),
            entry("HD 6", "d", "4"),
            entry("Ärger", "e", "5"),
            entry("HD 600", "f", "6"),
        ],
    };
    let mut expected: Vec<&str> = db.entries.iter().map(|e| e.name.as_str()).collect();
    expected.sort_unstable();
    expected.dedup();
    assert_eq!(db.headphone_names(), expected);
    assert_eq!(db.headphone_names(), vec!["HD 6", "HD 600", "Sundara", "Ärger"]);
    assert_eq!(db.len(), 6);
    assert!(!db.is_empty());
    let empty = HeadphoneDatabase { entries: vec![] };
    assert!(empty.is_empty());
    assert!(empty.headphone_names().is_empty());
}

fn walked(file: Option<&str>, parent: Option<Option<&str>>, grand: Option<Option<&str>>, rel: Option<&str>) -> WalkedFile {
    WalkedFile {
        file_name: file.map(|s| s.to_string()),
        has_parent: parent.is_some(),
        parent_name: parent.flatten().map(|s| s.to_string()),
        has_grandparent: grand.is_some(),
        grandparent_name: grand.flatten().map(|s| s.to_string()),
        relative_path: rel.map(|s| s.to_string()),
    }
}

#[test]
fn from_directory_keeps_profiles_in_walk_order() {
    let files = vec![
        walked(Some("ParametricEQ.txt"), Some(Some("HD 600")), Some(Some("oratory1990")), Some("oratory1990\\HD 600\\ParametricEQ.txt")),
        walked(Some("README.md"), Some(Some("HD 600")), Some(Some("oratory1990")), Some("oratory1990/HD 600/README.md")),
        walked(Some("ParametricEQ.txt"), Some(Some("Sundara")), Some(None), Some("Sundara/ParametricEQ.txt")),
        walked(Some("ParametricEQ.txt"), Some(Some("X")), None, Some("X/ParametricEQ.txt")),
        walked(Some("ParametricEQ.txt"), Some(Some("Y")), Some(Some("z")), None),
        walked(Some("parametriceq.txt"), Some(Some("Y")), Some(Some("z")), Some("z/Y/parametriceq.txt")),
        walked(None, Some(Some("Y")), Some(Some("z")), Some("z/Y")),
    ];
    let db = HeadphoneDatabase::from_directory(&files);
    assert_eq!(db.len(), 2);
    assert_eq!(db.entries[0].name, "HD 600");
    assert_eq!(db.entries[0].source, "oratory1990");
    assert_eq!(db.entries[0].file_path, "oratory1990/HD 600/ParametricEQ.txt");
    assert_eq!(db.entries[1].name, "Sundara");
    assert_eq!(db.entries[1].source, "");
    assert_eq!(db.entries[1].file_path, "Sundara/ParametricEQ.txt");
}

#[test]
fn search_queries_that_differ_in_case_agree() {
    let db = HeadphoneDatabase {
        entries: vec![
            HeadphoneEntry { name: "Sennheiser HD 600".to_string(), source: "a".to_string(), file_path: "a/x".to_string() },
            HeadphoneEntry { name: "SENNHEISER HD 650".to_string(), source: "b".to_string(), file_path: "b/y".to_string() },
            HeadphoneEntry { name: "AKG K371".to_string(), source: "c".to_string(), file_path: "c/z".to_string() },
        ],
    };
    let a: Vec<&str> = db.search("sennheiser hd").iter().map(|e| e.file_path.as_str()).collect();
    let b: Vec<&str> = db.search("SeNnHeIsEr HD").iter().map(|e| e.file_path.as_str()).collect();
    assert_eq!(a, vec!["a/x", "b/y"]);
    assert_eq!(a, b);
    assert_eq!(db.search("").len(), 3);
}

#[test]
fn empty_query_finds_every_entry() {
    let db = HeadphoneDatabase {
        entries: vec![
            HeadphoneEntry { name: "Ünïcode Phone".to_string(), source: "s".to_string(), file_path: "s/u".to_string() },
            HeadphoneEntry { name: "".to_string(), source: "s".to_string(), file_path: "s/e".to_string() },
        ],
    };
    assert_eq!(db.search("").len(), db.len());
}
