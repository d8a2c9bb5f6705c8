use mediawiki::compare::{
    compare_snak_values, compare_snaks, compare_qualifiers, compare_references, compare_claims,
    Comparison,
};
use mediawiki::model::{
    Snak, SnakType, Statement, Reference, Rank, DataValue, Value, ValueType, TimeValue,
    QuantityValue, CoordinateValue, MonoLingualValue, EntityRefValue,
};

fn time(calendarmodel: &str, precision: &str, time: &str, before: &str, after: &str, timezone: &str) -> Value {
    Value::Time(TimeValue {
        calendarmodel: calendarmodel.to_string(),
        precision: precision.to_string(),
        time: time.to_string(),
        before: before.to_string(),
        after: after.to_string(),
        timezone: timezone.to_string(),
    })
}

fn quantity(amount: &str, unit: &str, lower: Option<&str>, upper: Option<&str>) -> Value {
    Value::Quantity(QuantityValue {
        amount: amount.to_string(),
        unit: unit.to_string(),
        lower_bound: lower.map(|s| s.to_string()),
        upper_bound: upper.map(|s| s.to_string()),
    })
}

fn coordinate(globe: &str, lat: &str, lon: &str, altitude: Option<&str>, precision: &str) -> Value {
    Value::Coordinate(CoordinateValue {
        globe: globe.to_string(),
        latitude: lat.to_string(),
        longitude: lon.to_string(),
        altitude: altitude.map(|s| s.to_string()),
        precision: precision.to_string(),
    })
}

fn string_snak(property: &str, text: &str) -> Snak {
    Snak::new_value_snak(
        property,
        "string",
        DataValue { value_type: ValueType::StringType, value: Value::StringValue(text.to_string()) },
    )
}

#[test]
fn times_differing_only_in_metadata_compare_same() {
    let a = time("gregorian", "11", "+2001-01-01T00:00:00Z", "0", "0", "0");
    let b = time("gregorian", "11", "+2001-01-01T00:00:00Z", "1", "2", "60");
    assert!(matches!(compare_snak_values(&a, &b), Comparison::Same));

    let c = time("gregorian", "11", "+2002-01-01T00:00:00Z", "0", "0", "0");
    assert!(matches!(compare_snak_values(&a, &c), Comparison::Different));
}

#[test]
fn quantities_differing_only_in_bounds_compare_same() {
    let a = quantity("+42", "1", Some("+41"), Some("+43"));
    let b = quantity("+42", "1", None, Some("+44"));
    assert!(matches!(compare_snak_values(&a, &b), Comparison::Same));

    let c = quantity("+43", "1", Some("+41"), Some("+43"));
    assert!(matches!(compare_snak_values(&a, &c), Comparison::Different));
}

#[test]
fn coordinates_differing_only_in_precision_compare_same() {
    let a = coordinate("earth", "52.5", "13.4", None, "0.01");
    let b = coordinate("earth", "52.5", "13.4", Some("30"), "0.0001");
    assert!(matches!(compare_snak_values(&a, &b), Comparison::Same));

    let c = coordinate("earth", "52.6", "13.4", None, "0.01");
    assert!(matches!(compare_snak_values(&a, &c), Comparison::Different));
}

#[test]
fn cross_variant_values_compare_different() {
    let a = quantity("+1", "1", None, None);
    let b = coordinate("earth", "1", "2", None, "1");
    assert!(matches!(compare_snak_values(&a, &b), Comparison::Different));

    let m = Value::MonoLingual(MonoLingualValue { language: "en".to_string(), text: "hi".to_string() });
    let s = Value::StringValue("hi".to_string());
    assert!(matches!(compare_snak_values(&m, &s), Comparison::Different));
}

#[test]
fn snaks_with_different_datatype_or_property_compare_different() {
    let a = string_snak("P1", "x");
    let mut b = string_snak("P1", "x");
    b.datatype = "external-id".to_string();
    assert!(matches!(compare_snaks(&a, &b), Comparison::Different));

    let c = string_snak("P2", "x");
    assert!(matches!(compare_snaks(&a, &c), Comparison::Different));

    let d = string_snak("P1", "x");
    assert!(matches!(compare_snaks(&a, &d), Comparison::Same));
}

#[test]
fn valueless_snaks_compare_by_snak_type() {
    let mut a = string_snak("P1", "x");
    a.snak_type = SnakType::NoValue;
    a.data_value = None;
    let mut b = string_snak("P1", "x");
    b.snak_type = SnakType::NoValue;
    b.data_value = None;
    assert!(matches!(compare_snaks(&a, &b), Comparison::Same));

    let c = string_snak("P1", "x");
    assert!(matches!(compare_snaks(&a, &c), Comparison::Different));

    let mut d = string_snak("P1", "x");
    d.data_value = None;
    assert!(matches!(compare_snaks(&c, &d), Comparison::Different));
}

#[test]
fn mismatched_value_type_tags_compare_different() {
    let a = string_snak("P1", "x");
    let mut b = string_snak("P1", "x");
    b.data_value = Some(DataValue {
        value_type: ValueType::EntityId,
        value: Value::StringValue("x".to_string()),
    });
    assert!(matches!(compare_snaks(&a, &b), Comparison::Different));
}

#[test]
fn qualifier_sets_compare_order_independently() {
    let q1 = string_snak("P1", "a");
    let q2 = string_snak("P2", "b");
    let left = vec![q1.clone(), q2.clone()];
    let right = vec![q2.clone(), q1.clone()];
    assert!(matches!(compare_qualifiers(&left, &right), Comparison::Same));

    let fewer = vec![q1.clone()];
    assert!(matches!(compare_qualifiers(&left, &fewer), Comparison::Similar));
    assert!(matches!(compare_qualifiers(&fewer, &left), Comparison::Similar));
}

#[test]
fn reference_sets_always_compare_same() {
    let with = vec![Reference { snaks: vec![string_snak("P1", "src")] }];
    let without: Vec<Reference> = vec![];
    assert!(matches!(compare_references(&with, &without), Comparison::Same));
}

#[test]
fn statement_comparison_threads_the_verdicts() {
    let main = string_snak("P31", "x");
    let base = Statement::new("statement", main.clone(), Rank::Normal, vec![], vec![]);

    let same = Statement::new("statement", main.clone(), Rank::Normal, vec![], vec![]);
    assert!(matches!(compare_claims(&base, &same), Comparison::Same));

    let ranked = Statement::new("statement", main.clone(), Rank::Preferred, vec![], vec![]);
    assert!(matches!(compare_claims(&base, &ranked), Comparison::Similar));

    let qualified = Statement::new("statement", main.clone(), Rank::Normal, vec![string_snak("P5", "q")], vec![]);
    assert!(matches!(compare_claims(&base, &qualified), Comparison::Similar));

    let other_main = Statement::new("statement", string_snak("P31", "y"), Rank::Normal, vec![], vec![]);
    assert!(matches!(compare_claims(&base, &other_main), Comparison::Different));

    let other_type = Statement::new("claim", main.clone(), Rank::Normal, vec![], vec![]);
    assert!(matches!(compare_claims(&base, &other_type), Comparison::Different));

    let entity_snak = Snak::new_value_snak(
        "P31",
        "wikibase-item",
        DataValue {
            value_type: ValueType::EntityId,
            value: Value::Entity(EntityRefValue { entity_type: "item".to_string(), id: "Q5".to_string() }),
        },
    );
    let entity_stmt = Statement::new("statement", entity_snak, Rank::Normal, vec![], vec![]);
    assert!(matches!(compare_claims(&base, &entity_stmt), Comparison::Different));
}
