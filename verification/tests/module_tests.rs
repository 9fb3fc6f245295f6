use fluminurs::module::{select_modules, AccessFlags, Module, ModuleFilter};

fn module(code: &str, term: &str, access: Option<AccessFlags>) -> Module {
    Module {
        id: format!("id-{}-{}", code, term),
        code: code.to_string(),
        name: format!("name of {}", code),
        access,
        term: term.to_string(),
    }
}

fn no_access() -> AccessFlags {
    AccessFlags {
        full: false,
        read: true,
        create: false,
        update: false,
        delete: false,
        settings_read: false,
        settings_update: false,
    }
}

#[test]
fn teaching_needs_a_write_permission() {
    let mut flags = no_access();
    let read_only = module("CS1", "2310", Some(flags));
    assert!(!read_only.is_teaching());
    assert!(read_only.is_taking());
    flags.update = true;
    let updater = module("CS1", "2310", Some(flags));
    assert!(updater.is_teaching());
    assert!(!updater.is_taking());
    let absent = module("CS1", "2310", None);
    assert!(!absent.is_teaching());
    assert!(!absent.has_access());
    assert!(read_only.has_access());
}

#[test]
fn equal_filter_keeps_only_that_term() {
    let modules = vec![
        module("CS1", "2310", None),
        module("CS2", "2240", None),
        module("CS3", "2310", None),
    ];
    let (picked, elided) = select_modules(&modules, &ModuleFilter::Equal("2310".to_string()));
    assert!(elided.is_empty());
    assert_eq!(picked.len(), 2);
    for m in &picked {
        assert_eq!(m.term, "2310");
    }
}

#[test]
fn greater_filter_keeps_current_and_later_terms() {
    let modules = vec![
        module("CS1", "2230", None),
        module("CS2", "2310", None),
        module("CS3", "2320", None),
    ];
    let (picked, elided) = select_modules(&modules, &ModuleFilter::GreaterThan("2310".to_string()));
    assert!(elided.is_empty());
    let codes: Vec<&str> = picked.iter().map(|m| m.code.as_str()).collect();
    assert_eq!(codes, vec!["CS2", "CS3"]);
}

#[test]
fn modules_sorted_by_code_with_one_entry_per_code() {
    let modules = vec![
        module("CS2", "2310", None),
        module("CS1", "2230", None),
        module("CS1", "2310", None),
        module("CS3", "2240", None),
    ];
    let (picked, elided) = select_modules(&modules, &ModuleFilter::GreaterThan("2230".to_string()));
    let summary: Vec<(String, String)> =
        picked.iter().map(|m| (m.code.clone(), m.term.clone())).collect();
    // codes ascending, one entry per code, the repeated code keeps its latest term
    assert_eq!(
        summary,
        vec![
            ("CS1".to_string(), "2310".to_string()),
            ("CS2".to_string(), "2310".to_string()),
            ("CS3".to_string(), "2240".to_string()),
        ]
    );
    // the earlier-term duplicate is reported back for the caller's warning
    assert_eq!(elided.len(), 1);
    assert_eq!(elided[0].code, "CS1");
    assert_eq!(elided[0].term, "2230");
}

#[test]
fn module_roots_use_sanitized_code() {
    let m = module("CS/21 03T", "2310", None);
    assert_eq!(m.workbin_root().path, "CS-21 03T");
    assert_eq!(m.multimedia_root().path, "CS-21 03T/Multimedia");
    assert_eq!(m.weblecture_root().path, "CS-21 03T/Web Lectures");
    assert_eq!(m.conferencing_root().path, "CS-21 03T/Conferences");
    let root = m.as_file();
    assert_eq!(root.name(), "CS-21 03T");
    assert!(root.is_directory());
    assert!(root.children().is_none());
}
