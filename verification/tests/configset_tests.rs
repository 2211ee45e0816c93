use layered_config::{ConfigError, ConfigSet, Entry, SourceFile};

fn entry(key: &str, value: &str) -> Entry {
    Entry { key: key.to_string(), value: value.to_string() }
}

fn source(path: &str, entries: Vec<Entry>) -> SourceFile {
    SourceFile { path: path.to_string(), entries }
}

#[test]
fn load_configs_via_configset() {
    let mut cs = ConfigSet::new();
    cs.add_files(&vec![
        source(
            "testdata/config1",
            vec![entry("trace2.eventTarget", "1"), entry("trace2.eventNesting", "1")],
        ),
        source("testdata/config2", vec![entry("trace2.eventNesting", "2")]),
        source("testdata/config3", vec![entry("trace2.eventNesting", "3")]),
    ])
    .unwrap();
    // ConfigSet retrieves correct value
    assert_eq!(cs.get_int("trace2.eventTarget").unwrap(), Some(1));
    // ConfigSet respects last config value set
    assert_eq!(cs.get_int("trace2.eventNesting").unwrap(), Some(3));
    // ConfigSet returns None for missing key
    assert_eq!(cs.get_string("foo.bar").unwrap(), None);
}

#[test]
fn precedence_last_merged_source_wins() {
    let a = || source("a", vec![entry("x.y", "1")]);
    let b = || source("b", vec![entry("x.y", "3")]);

    let mut ab = ConfigSet::new();
    ab.add_files(&vec![a(), b()]).unwrap();
    assert_eq!(ab.get_int("x.y").unwrap(), Some(3));
    assert_eq!(ab.get_string("x.y").unwrap(), Some("3".to_string()));

    let mut ba = ConfigSet::new();
    ba.add_files(&vec![b(), a()]).unwrap();
    assert_eq!(ba.get_int("x.y").unwrap(), Some(1));
    assert_eq!(ba.get_string("x.y").unwrap(), Some("1".to_string()));
}

#[test]
fn precedence_within_one_source() {
    let mut cs = ConfigSet::new();
    cs.add_files(&vec![source("a", vec![entry("k", "first"), entry("k", "second")])]).unwrap();
    assert_eq!(cs.get_string("k").unwrap(), Some("second".to_string()));
}

#[test]
fn absent_key_is_not_an_error_and_not_a_default() {
    let empty = ConfigSet::new();
    assert_eq!(empty.get_int("never.merged").unwrap(), None);
    assert_eq!(empty.get_string("never.merged").unwrap(), None);

    let mut cs = ConfigSet::new();
    cs.add_files(&vec![source("a", vec![entry("present", "0")])]).unwrap();
    assert_eq!(cs.get_int("absent").unwrap(), None);
    assert_eq!(cs.get_string("absent").unwrap(), None);
    // the present key with value "0" is found, so absence is not zero-defaulting
    assert_eq!(cs.get_int("present").unwrap(), Some(0));
}

#[test]
fn non_numeric_text_is_absent_for_get_int() {
    let mut cs = ConfigSet::new();
    cs.add_files(&vec![source("a", vec![entry("k", "not a number")])]).unwrap();
    assert_eq!(cs.get_int("k").unwrap(), None);
    assert_eq!(cs.get_string("k").unwrap(), Some("not a number".to_string()));
}

#[test]
fn string_copies_are_independent() {
    let mut cs = ConfigSet::new();
    cs.add_files(&vec![source("a", vec![entry("k", "value")])]).unwrap();
    let mut first = cs.get_string("k").unwrap().unwrap();
    let second = cs.get_string("k").unwrap().unwrap();
    first.push_str(" scribbled");
    drop(first);
    assert_eq!(second, "value".to_string());
    assert_eq!(cs.get_string("k").unwrap(), Some("value".to_string()));
}

#[test]
fn repeated_lookups_do_not_corrupt_the_instance() {
    let mut cs = ConfigSet::new();
    cs.add_files(&vec![source("a", vec![entry("k", "v"), entry("n", "7")])]).unwrap();
    for _ in 0..5000 {
        assert_eq!(cs.get_string("k").unwrap(), Some("v".to_string()));
        assert_eq!(cs.get_string("missing").unwrap(), None);
        assert_eq!(cs.get_int("n").unwrap(), Some(7));
        assert_eq!(cs.get_int("k").unwrap(), None);
    }
}

#[test]
fn same_sources_same_order_agree_across_instances() {
    let files = || {
        vec![
            source("a", vec![entry("x", "1"), entry("y", "2")]),
            source("b", vec![entry("x", "3")]),
        ]
    };
    let mut one = ConfigSet::new();
    one.add_files(&files()).unwrap();
    let mut two = ConfigSet::new();
    two.add_files(&files()).unwrap();
    for key in ["x", "y", "z"] {
        assert_eq!(one.get_string(key).unwrap(), two.get_string(key).unwrap());
        assert_eq!(one.get_int(key).unwrap(), two.get_int(key).unwrap());
    }
}

#[test]
fn key_with_embedded_nul_is_an_encoding_error() {
    let mut cs = ConfigSet::new();
    cs.add_files(&vec![source("a", vec![entry("k", "v")])]).unwrap();
    match cs.get_string("bad\0key") {
        Err(ConfigError::Encoding { text }) => assert_eq!(text, "bad\0key".to_string()),
        other => panic!("expected an encoding error, got {:?}", other),
    }
    match cs.get_int("bad\0key") {
        Err(ConfigError::Encoding { text }) => assert_eq!(text, "bad\0key".to_string()),
        other => panic!("expected an encoding error, got {:?}", other),
    }
    // the instance stays usable after the failed call
    assert_eq!(cs.get_string("k").unwrap(), Some("v".to_string()));
}

#[test]
fn path_with_embedded_nul_stops_the_merge_at_that_file() {
    let mut cs = ConfigSet::new();
    let r = cs.add_files(&vec![
        source("good", vec![entry("early", "1")]),
        source("bad\0path", vec![entry("middle", "2")]),
        source("late", vec![entry("late", "3")]),
    ]);
    match r {
        Err(ConfigError::Encoding { text }) => assert_eq!(text, "bad\0path".to_string()),
        other => panic!("expected an encoding error, got {:?}", other),
    }
    // files before the failing path stay merged, the rest were never merged
    assert_eq!(cs.get_int("early").unwrap(), Some(1));
    assert_eq!(cs.get_string("middle").unwrap(), None);
    assert_eq!(cs.get_string("late").unwrap(), None);
}

#[test]
fn source_paths_are_recorded_in_merge_order() {
    let mut cs = ConfigSet::new();
    assert!(cs.source_paths().is_empty());
    let r = cs.add_files(&vec![
        source("first", vec![entry("a", "1")]),
        source("second", vec![]),
        source("bad\0path", vec![entry("b", "2")]),
    ]);
    assert!(r.is_err());
    // the failing path and everything after it are not recorded either
    assert_eq!(cs.source_paths(), &vec!["first".to_string(), "second".to_string()]);
}

#[test]
fn adding_no_files_changes_nothing() {
    let mut cs = ConfigSet::new();
    cs.add_files(&vec![]).unwrap();
    assert_eq!(cs.get_string("k").unwrap(), None);
}

#[test]
fn default_is_the_empty_aggregate() {
    let cs = ConfigSet::default();
    assert_eq!(cs.get_int("anything").unwrap(), None);
}

#[test]
fn release_consumes_the_aggregate() {
    let mut cs = ConfigSet::new();
    cs.add_files(&vec![source("a", vec![entry("k", "v")])]).unwrap();
    cs.release();
    // `cs` is gone: any further operation on it is a compile-time error.
}
