use mediawiki::entity_diff::EntityDiff;
use mediawiki::model::{Entity, LocaleString, SiteLink, Snak, SnakType, Statement, DataValue, Value, ValueType, EntityRefValue, CoordinateValue, Reference, Rank};
use mediawiki::patch::ClaimEntry;
use mediawiki::scope::{EntityDiffParam, EntityDiffParams};

fn entity_ref(id: &str) -> DataValue {
    DataValue {
        value_type: ValueType::EntityId,
        value: Value::Entity(EntityRefValue { entity_type: "item".to_string(), id: id.to_string() }),
    }
}

fn statement(property: &str, target: &str, qualifiers: Vec<Snak>) -> Statement {
    Statement::new(
        "statement",
        Snak::new_value_snak(property, "wikibase-item", entity_ref(target)),
        Rank::Normal,
        qualifiers,
        vec![],
    )
}

#[test]
fn entity_diff_misc() {
    let mut i = Entity::new_empty();
    i.set_label(LocaleString::new("en", "Douglas Adams"));

    let mut new_i = Entity::new_empty();
    new_i.set_label(LocaleString::new("en", "testing"));

    let mut params = EntityDiffParams::none();
    params.labels = EntityDiffParam::some(&vec!["en".to_string()]);

    let diff = EntityDiff::new(&i, &new_i, &params);
    assert_eq!(
        r#"{"labels":{"en":{"language":"en","value":"testing"}}}"#,
        diff.as_str()
    );

    let mut new_i = Entity::new_empty();
    new_i.set_label(LocaleString::new("en", "Douglas Adams"));
    let diff = EntityDiff::new(&i, &new_i, &params);
    assert_eq!(r#"{}"#, diff.as_str());

    let mut new_i = Entity::new_empty();
    new_i.set_sitelink(SiteLink::new("enwiki", "Test123", vec![]));
    let mut params = EntityDiffParams::none();
    params.sitelinks = EntityDiffParam::some(&vec!["enwiki".to_string()]);
    let diff = EntityDiff::new(&i, &new_i, &params);
    assert_eq!(
        r#"{"sitelinks":{"enwiki":{"badges":[],"site":"enwiki","title":"Test123"}}}"#,
        diff.as_str()
    );
}

#[test]
fn diff_of_entity_with_itself_is_empty() {
    let mut e = Entity::new_empty();
    e.set_label(LocaleString::new("en", "thing"));
    e.set_label(LocaleString::new("de", "Ding"));
    e.set_description(LocaleString::new("en", "a thing"));
    e.add_alias(LocaleString::new("en", "object"));
    e.add_claim(statement("P31", "Q5", vec![]));
    e.set_sitelink(SiteLink::new("enwiki", "Thing", vec!["Q17437796".to_string()]));

    let diff = EntityDiff::new(&e, &e, &EntityDiffParams::all());
    assert!(diff.actions().is_empty());
    assert_eq!("{}", diff.as_str());

    let diff = EntityDiff::new(&e, &e, &EntityDiffParams::none());
    assert!(diff.actions().is_empty());
}

#[test]
fn scope_none_suppresses_all_differences() {
    let mut e1 = Entity::new_empty();
    e1.set_label(LocaleString::new("en", "old"));
    e1.add_claim(statement("P31", "Q5", vec![]));
    let mut e2 = Entity::new_empty();
    e2.set_label(LocaleString::new("en", "new"));
    e2.set_sitelink(SiteLink::new("enwiki", "New", vec![]));

    let diff = EntityDiff::new(&e1, &e2, &EntityDiffParams::none());
    assert!(diff.actions().is_empty());
    assert_eq!("{}", diff.as_str());
}

#[test]
fn wildcard_behaves_like_explicit_key_list() {
    let mut e1 = Entity::new_empty();
    e1.set_label(LocaleString::new("en", "old"));
    e1.set_label(LocaleString::new("de", "alt"));
    let mut e2 = Entity::new_empty();
    e2.set_label(LocaleString::new("en", "new"));
    e2.set_label(LocaleString::new("fr", "nouveau"));

    let mut with_star = EntityDiffParams::none();
    with_star.labels = EntityDiffParam::some(&vec!["*".to_string()]);
    let mut explicit = EntityDiffParams::none();
    explicit.labels = EntityDiffParam::some(&vec![
        "en".to_string(),
        "de".to_string(),
        "fr".to_string(),
    ]);

    let d1 = EntityDiff::new(&e1, &e2, &with_star);
    let d2 = EntityDiff::new(&e1, &e2, &explicit);
    assert_eq!(d1.as_str(), d2.as_str());
    assert!(!d1.actions().is_empty());
}

#[test]
fn label_removal_is_keyed_and_carries_old_value() {
    let mut e1 = Entity::new_empty();
    e1.set_label(LocaleString::new("en", "kept"));
    e1.set_label(LocaleString::new("de", "weg"));
    let mut e2 = Entity::new_empty();
    e2.set_label(LocaleString::new("en", "kept"));

    let diff = EntityDiff::new(&e1, &e2, &EntityDiffParams::all());
    assert_eq!(
        r#"{"labels":{"de":{"language":"de","remove":"","value":"weg"}}}"#,
        diff.as_str()
    );
}

#[test]
fn label_keys_are_emitted_in_sorted_order() {
    let e1 = Entity::new_empty();
    let mut e2 = Entity::new_empty();
    e2.set_label(LocaleString::new("zh", "x"));
    e2.set_label(LocaleString::new("de", "y"));

    let diff = EntityDiff::new(&e1, &e2, &EntityDiffParams::all());
    assert_eq!(
        r#"{"labels":{"de":{"language":"de","value":"y"},"zh":{"language":"zh","value":"x"}}}"#,
        diff.as_str()
    );
}

#[test]
fn changed_alias_surfaces_as_remove_and_add_pair() {
    let mut e1 = Entity::new_empty();
    e1.add_alias(LocaleString::new("en", "foo"));
    let mut e2 = Entity::new_empty();
    e2.add_alias(LocaleString::new("en", "bar"));

    let diff = EntityDiff::new(&e1, &e2, &EntityDiffParams::all());
    assert_eq!(
        r#"{"aliases":[{"language":"en","remove":"","value":"foo"},{"language":"en","value":"bar"}]}"#,
        diff.as_str()
    );
}

#[test]
fn unchanged_alias_needs_no_action() {
    let mut e1 = Entity::new_empty();
    e1.add_alias(LocaleString::new("en", "foo"));
    let mut e2 = Entity::new_empty();
    e2.add_alias(LocaleString::new("en", "foo"));
    e2.add_alias(LocaleString::new("en", "bar"));

    let diff = EntityDiff::new(&e1, &e2, &EntityDiffParams::all());
    assert_eq!(r#"{"aliases":[{"language":"en","value":"bar"}]}"#, diff.as_str());
}

#[test]
fn similar_statement_is_altered_not_replaced() {
    let q1 = Snak::new_value_snak("P1", "wikibase-item", entity_ref("Q1"));
    let q2 = Snak::new_value_snak("P1", "wikibase-item", entity_ref("Q2"));
    let mut e1 = Entity::new_empty();
    e1.add_claim(statement("P31", "Q5", vec![q1]));
    let mut e2 = Entity::new_empty();
    e2.add_claim(statement("P31", "Q5", vec![q2]));

    let mut params = EntityDiffParams::none();
    params.claims = EntityDiffParam::some(&vec!["P31".to_string()]);

    let diff = EntityDiff::new(&e1, &e2, &params);
    assert_eq!(1, diff.actions().claims.len());
    assert!(matches!(diff.actions().claims[0], ClaimEntry::Alter(_)));
}

#[test]
fn removed_statement_emits_property_keyed_removal() {
    let mut e1 = Entity::new_empty();
    e1.add_claim(statement("P2", "Q1", vec![]));
    let e2 = Entity::new_empty();

    let diff = EntityDiff::new(&e1, &e2, &EntityDiffParams::all());
    assert_eq!(r#"{"claims":[{"property":"P2","remove":""}]}"#, diff.as_str());
}

#[test]
fn added_statement_carries_full_payload() {
    let e1 = Entity::new_empty();
    let mut e2 = Entity::new_empty();
    e2.add_claim(Statement::new(
        "statement",
        Snak::new_value_snak(
            "P1",
            "string",
            DataValue { value_type: ValueType::StringType, value: Value::StringValue("hello".to_string()) },
        ),
        Rank::Normal,
        vec![],
        vec![],
    ));

    let diff = EntityDiff::new(&e1, &e2, &EntityDiffParams::all());
    assert_eq!(
        r#"{"claims":[{"mainsnak":{"datatype":"string","datavalue":{"type":"string","value":"hello"},"property":"P1","snaktype":"value"},"qualifiers":[],"rank":"normal","references":[],"type":"statement"}]}"#,
        diff.as_str()
    );
}

#[test]
fn sitelink_title_change_is_altered() {
    let mut e1 = Entity::new_empty();
    e1.set_sitelink(SiteLink::new("enwiki", "Old title", vec![]));
    let mut e2 = Entity::new_empty();
    e2.set_sitelink(SiteLink::new("enwiki", "New title", vec![]));

    let diff = EntityDiff::new(&e1, &e2, &EntityDiffParams::all());
    assert_eq!(
        r#"{"sitelinks":{"enwiki":{"badges":[],"site":"enwiki","title":"New title"}}}"#,
        diff.as_str()
    );
}

#[test]
fn vanished_sitelink_set_removes_every_link() {
    let mut e1 = Entity::new_empty();
    e1.set_sitelink(SiteLink::new("enwiki", "Gone", vec![]));
    let e2 = Entity::new_empty();

    let diff = EntityDiff::new(&e1, &e2, &EntityDiffParams::all());
    assert_eq!(
        r#"{"sitelinks":{"enwiki":{"badges":[],"remove":"","site":"enwiki","title":"Gone"}}}"#,
        diff.as_str()
    );
}

#[test]
fn sections_are_emitted_in_fixed_order() {
    let mut e1 = Entity::new_empty();
    e1.add_alias(LocaleString::new("en", "gone"));
    let mut e2 = Entity::new_empty();
    e2.set_label(LocaleString::new("en", "l"));
    e2.set_description(LocaleString::new("en", "d"));
    e2.set_sitelink(SiteLink::new("enwiki", "T", vec![]));

    let diff = EntityDiff::new(&e1, &e2, &EntityDiffParams::all());
    assert_eq!(
        r#"{"aliases":[{"language":"en","remove":"","value":"gone"}],"descriptions":{"en":{"language":"en","value":"d"}},"labels":{"en":{"language":"en","value":"l"}},"sitelinks":{"enwiki":{"badges":[],"site":"enwiki","title":"T"}}}"#,
        diff.as_str()
    );
}

#[test]
fn string_values_are_json_escaped() {
    let e1 = Entity::new_empty();
    let mut e2 = Entity::new_empty();
    e2.set_label(LocaleString::new("en", "a\"b\\c\nd\te"));

    let diff = EntityDiff::new(&e1, &e2, &EntityDiffParams::all());
    assert_eq!(
        "{\"labels\":{\"en\":{\"language\":\"en\",\"value\":\"a\\\"b\\\\c\\nd\\te\"}}}",
        diff.as_str()
    );
}

#[test]
fn restricted_scope_yields_a_subset_of_the_full_diff() {
    let mut e1 = Entity::new_empty();
    e1.set_label(LocaleString::new("en", "old"));
    e1.set_label(LocaleString::new("de", "alt"));
    let mut e2 = Entity::new_empty();
    e2.set_label(LocaleString::new("en", "new"));
    e2.set_label(LocaleString::new("de", "neu"));

    let mut restricted = EntityDiffParams::none();
    restricted.labels = EntityDiffParam::some(&vec!["en".to_string()]);

    let narrow = EntityDiff::new(&e1, &e2, &restricted);
    let wide = EntityDiff::new(&e1, &e2, &EntityDiffParams::all());

    assert_eq!(r#"{"labels":{"en":{"language":"en","value":"new"}}}"#, narrow.as_str());
    assert_eq!(
        r#"{"labels":{"de":{"language":"de","value":"neu"},"en":{"language":"en","value":"new"}}}"#,
        wide.as_str()
    );
    for (key, entry) in &narrow.actions().labels.entries {
        let found = wide
            .actions()
            .labels
            .entries
            .iter()
            .any(|(k, e)| k == key && e.language == entry.language && e.value == entry.value && e.remove == entry.remove);
        assert!(found);
    }
}

#[test]
fn add_fires_only_for_genuinely_new_languages() {
    let mut e1 = Entity::new_empty();
    e1.set_label(LocaleString::new("en", "old"));
    let mut e2 = Entity::new_empty();
    e2.set_label(LocaleString::new("en", "new"));

    let mut params = EntityDiffParams::none();
    params.labels = EntityDiffParam {
        add: vec!["*".to_string()],
        remove: vec![],
        alter: vec![],
    };
    let diff = EntityDiff::new(&e1, &e2, &params);
    assert_eq!("{}", diff.as_str());
}

#[test]
fn changed_value_is_never_treated_as_a_removal() {
    let mut e1 = Entity::new_empty();
    e1.set_label(LocaleString::new("en", "old"));
    let mut e2 = Entity::new_empty();
    e2.set_label(LocaleString::new("en", "new"));

    let mut params = EntityDiffParams::none();
    params.labels = EntityDiffParam {
        add: vec![],
        remove: vec!["*".to_string()],
        alter: vec![],
    };
    let diff = EntityDiff::new(&e1, &e2, &params);
    assert_eq!("{}", diff.as_str());
}

#[test]
fn statement_payload_carries_qualifiers_and_references() {
    let string_value = |text: &str| DataValue {
        value_type: ValueType::StringType,
        value: Value::StringValue(text.to_string()),
    };
    let e1 = Entity::new_empty();
    let mut e2 = Entity::new_empty();
    e2.add_claim(Statement::new(
        "statement",
        Snak::new_value_snak("P1", "string", string_value("v")),
        Rank::Preferred,
        vec![Snak::new_value_snak("P5", "string", string_value("q"))],
        vec![Reference { snaks: vec![Snak::new_value_snak("P6", "string", string_value("r"))] }],
    ));

    let diff = EntityDiff::new(&e1, &e2, &EntityDiffParams::all());
    assert_eq!(
        r#"{"claims":[{"mainsnak":{"datatype":"string","datavalue":{"type":"string","value":"v"},"property":"P1","snaktype":"value"},"qualifiers":[{"datatype":"string","datavalue":{"type":"string","value":"q"},"property":"P5","snaktype":"value"}],"rank":"preferred","references":[{"snaks":[{"datatype":"string","datavalue":{"type":"string","value":"r"},"property":"P6","snaktype":"value"}]}],"type":"statement"}]}"#,
        diff.as_str()
    );
}

#[test]
fn coordinate_payload_writes_null_for_absent_altitude() {
    let e1 = Entity::new_empty();
    let mut e2 = Entity::new_empty();
    e2.add_claim(Statement::new(
        "statement",
        Snak::new_value_snak(
            "P625",
            "globe-coordinate",
            DataValue {
                value_type: ValueType::Coordinate,
                value: Value::Coordinate(CoordinateValue {
                    globe: "earth".to_string(),
                    latitude: "52.5".to_string(),
                    longitude: "13.4".to_string(),
                    altitude: None,
                    precision: "0.01".to_string(),
                }),
            },
        ),
        Rank::Normal,
        vec![],
        vec![],
    ));

    let diff = EntityDiff::new(&e1, &e2, &EntityDiffParams::all());
    assert_eq!(
        r#"{"claims":[{"mainsnak":{"datatype":"globe-coordinate","datavalue":{"type":"globecoordinate","value":{"altitude":null,"globe":"earth","latitude":"52.5","longitude":"13.4","precision":"0.01"}},"property":"P625","snaktype":"value"},"qualifiers":[],"rank":"normal","references":[],"type":"statement"}]}"#,
        diff.as_str()
    );
}

#[test]
fn valueless_snak_payload_omits_the_data_value() {
    let e1 = Entity::new_empty();
    let mut e2 = Entity::new_empty();
    e2.add_claim(Statement::new(
        "statement",
        Snak {
            property: "P40".to_string(),
            datatype: "wikibase-item".to_string(),
            snak_type: SnakType::NoValue,
            data_value: None,
        },
        Rank::Normal,
        vec![],
        vec![],
    ));

    let diff = EntityDiff::new(&e1, &e2, &EntityDiffParams::all());
    assert_eq!(
        r#"{"claims":[{"mainsnak":{"datatype":"wikibase-item","property":"P40","snaktype":"novalue"},"qualifiers":[],"rank":"normal","references":[],"type":"statement"}]}"#,
        diff.as_str()
    );
}

#[test]
fn sitelink_badges_are_kept_in_order() {
    let e1 = Entity::new_empty();
    let mut e2 = Entity::new_empty();
    e2.set_sitelink(SiteLink::new(
        "dewiki",
        "Titel",
        vec!["Q17437796".to_string(), "Q17437798".to_string()],
    ));

    let diff = EntityDiff::new(&e1, &e2, &EntityDiffParams::all());
    assert_eq!(
        r#"{"sitelinks":{"dewiki":{"badges":["Q17437796","Q17437798"],"site":"dewiki","title":"Titel"}}}"#,
        diff.as_str()
    );
}
