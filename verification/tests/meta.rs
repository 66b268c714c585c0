use espanso_settings::{
    create_category, document_from_matches, validate_document, Category, MatchMeta, MatchMetaMap,
    MetaError, UiMatch, UiMetaDocument, UiMetaStore,
};

#[test]
fn create_category_normalizes_and_rejects_blank() {
    assert!(create_category(&[], "  ").is_err());
    let category = create_category(&[], "  邮件  ").unwrap();
    assert_eq!(category.name, "邮件");
    assert!(create_category(std::slice::from_ref(&category), "邮件").is_err());
}

#[test]
fn document_from_matches_drops_empty_meta() {
    let categories = vec![Category {
        id: "cat-1".to_string(),
        name: "A".to_string(),
        order: 0,
    }];
    let matches = vec![
        UiMatch {
            id: "with".to_string(),
            trigger: ":a".to_string(),
            replace: "a".to_string(),
            short_name: String::new(),
            description: "d".to_string(),
            category_id: "cat-1".to_string(),
        },
        UiMatch {
            id: "empty".to_string(),
            trigger: ":b".to_string(),
            replace: "b".to_string(),
            short_name: String::new(),
            description: String::new(),
            category_id: String::new(),
        },
    ];
    let document = document_from_matches(&categories, &matches);
    assert!(document.matches.contains_key("with"));
    assert!(!document.matches.contains_key("empty"));
}

fn category(id: &str, name: &str, order: u32) -> Category {
    Category { id: id.to_string(), name: name.to_string(), order }
}

#[test]
fn new_categories_follow_the_highest_order_and_get_a_cat_id() {
    let existing = vec![category("cat-1", "One", 4), category("cat-2", "Two", 9)];
    let created = create_category(&existing, "Three").unwrap();
    assert_eq!(created.order, 10);
    assert!(created.id.starts_with("cat-"));
    assert!(created.id["cat-".len()..].chars().all(|c| c.is_ascii_digit()));
    let saturated = create_category(&[category("cat-9", "Max", u32::MAX)], "Next").unwrap();
    assert_eq!(saturated.order, u32::MAX);
}

#[test]
fn category_names_are_compared_without_case_and_must_be_one_line() {
    let existing = vec![category("cat-1", "Work", 0)];
    assert_eq!(
        create_category(&existing, "  WORK "),
        Err(MetaError::CategoryExists("WORK".to_string()))
    );
    assert_eq!(create_category(&existing, "a\nb"), Err(MetaError::MultilineCategoryName));
    assert_eq!(create_category(&existing, "\t"), Err(MetaError::BlankCategoryName));
    assert_eq!(
        MetaError::CategoryExists("WORK".to_string()).message(),
        "a category named \"WORK\" already exists"
    );
}

#[test]
fn document_metadata_is_trimmed_and_later_matches_win() {
    let matches = vec![
        UiMatch {
            id: "x".to_string(),
            trigger: ":x".to_string(),
            replace: "1".to_string(),
            short_name: String::new(),
            description: "  first  ".to_string(),
            category_id: String::new(),
        },
        UiMatch {
            id: "x".to_string(),
            trigger: ":y".to_string(),
            replace: "2".to_string(),
            short_name: String::new(),
            description: "second".to_string(),
            category_id: " cat-1 ".to_string(),
        },
    ];
    let document = document_from_matches(&[], &matches);
    assert_eq!(document.version, 1);
    assert_eq!(
        document.matches.get("x"),
        Some(&MatchMeta { description: "second".to_string(), category_id: "cat-1".to_string() })
    );
    assert_eq!(document.matches.len(), 1);
}

#[test]
fn metadata_entries_stay_in_key_order() {
    let mut map = MatchMetaMap::new();
    for key in ["b", "a", "c", "a"] {
        map.insert(key.to_string(), MatchMeta { description: key.to_string(), category_id: String::new() });
    }
    let keys: Vec<&str> = map.entries().iter().map(|(k, _)| k.as_str()).collect();
    assert_eq!(keys, vec!["a", "b", "c"]);
}

#[test]
fn validate_document_reports_the_first_fault() {
    let mut document = UiMetaDocument::default();
    assert_eq!(validate_document(&document), Ok(()));
    document.categories = vec![category("cat-1", "A", 0), category("cat-1", "B", 1)];
    assert_eq!(
        validate_document(&document),
        Err(MetaError::DuplicateCategoryId("cat-1".to_string()))
    );
    document.categories = vec![category("cat-1", "Work", 0), category("cat-2", " work ", 1)];
    assert_eq!(
        validate_document(&document),
        Err(MetaError::DuplicateCategoryName("work".to_string()))
    );
    document.categories = vec![category("cat-1", "  ", 0)];
    assert_eq!(validate_document(&document), Err(MetaError::BlankCategoryName));
    document.categories = vec![category(" ", "Name", 0)];
    assert_eq!(validate_document(&document), Err(MetaError::BlankCategoryId));
    document.categories = vec![category("cat-1", "A", 0)];
    document.matches.insert(
        "m".to_string(),
        MatchMeta { description: String::new(), category_id: " cat-2 ".to_string() },
    );
    assert_eq!(
        validate_document(&document),
        Err(MetaError::UnknownCategory("m".to_string(), "cat-2".to_string()))
    );
    let mut blank = UiMetaDocument::default();
    blank.matches.insert(" ".to_string(), MatchMeta::default());
    assert_eq!(validate_document(&blank), Err(MetaError::BlankMatchKey));
}

#[test]
fn the_meta_store_lives_beside_the_managed_file() {
    assert_eq!(UiMetaStore::new("/cfg").path(), "/cfg/match/ui-meta.json");
    assert_eq!(UiMetaStore::new("/cfg/").path(), "/cfg/match/ui-meta.json");
}
