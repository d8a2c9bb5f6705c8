use mediawiki::apply::{edit_entity_params, interpret_edit_response, EditTarget};
use mediawiki::patch::Patch;
use mediawiki::scope::{EntityDiffParam, EntityDiffParams, ScopeAction};

#[test]
fn scope_valid_checks_the_matching_list() {
    let p = EntityDiffParam::some(&vec!["en".to_string(), "de".to_string()]);
    assert!(p.valid("en", ScopeAction::Add));
    assert!(p.valid("de", ScopeAction::Remove));
    assert!(p.valid("en", ScopeAction::Alter));
    assert!(!p.valid("fr", ScopeAction::Add));
    assert!(!p.valid("fr", ScopeAction::Remove));
    assert!(!p.valid("fr", ScopeAction::Alter));
}

#[test]
fn wildcard_authorizes_every_key() {
    let p = EntityDiffParam::all();
    assert!(p.valid("en", ScopeAction::Add));
    assert!(p.valid("anything at all", ScopeAction::Remove));
    assert!(p.valid("", ScopeAction::Alter));
}

#[test]
fn empty_scope_authorizes_nothing() {
    let p = EntityDiffParam::none();
    assert!(!p.valid("en", ScopeAction::Add));
    assert!(!p.valid("*", ScopeAction::Remove));
    assert!(!p.valid("", ScopeAction::Alter));
}

#[test]
fn star_must_be_in_the_consulted_list() {
    let p = EntityDiffParam {
        add: vec!["*".to_string()],
        remove: vec![],
        alter: vec![],
    };
    assert!(p.valid("en", ScopeAction::Add));
    assert!(!p.valid("en", ScopeAction::Remove));
    assert!(!p.valid("en", ScopeAction::Alter));
}

#[test]
fn section_scopes_are_independent() {
    let mut params = EntityDiffParams::none();
    params.labels = EntityDiffParam::all();
    assert!(params.labels.valid("en", ScopeAction::Add));
    assert!(!params.descriptions.valid("en", ScopeAction::Add));
    assert!(!params.sitelinks.valid("en", ScopeAction::Add));
}

#[test]
fn new_patch_is_empty() {
    let p = Patch::new();
    assert!(p.is_empty());
}

#[test]
fn edit_params_carry_action_data_token_and_target() {
    let params = edit_entity_params("{}", "token+\\", &EditTarget::Entity("Q42".to_string()));
    assert_eq!(4, params.len());
    assert_eq!(("action".to_string(), "wbeditentity".to_string()), params[0]);
    assert_eq!(("data".to_string(), "{}".to_string()), params[1]);
    assert_eq!(("token".to_string(), "token+\\".to_string()), params[2]);
    assert_eq!(("id".to_string(), "Q42".to_string()), params[3]);

    let params = edit_entity_params("{}", "t", &EditTarget::New("item".to_string()));
    assert_eq!(("new".to_string(), "item".to_string()), params[3]);
}

#[test]
fn response_with_success_one_and_entity_is_ok() {
    let r = interpret_edit_response("{}", "raw", Some(1), Some("{\"id\":\"Q1\"}".to_string()));
    match r {
        Ok(entity) => assert_eq!("{\"id\":\"Q1\"}", entity),
        Err(_) => panic!("expected success"),
    }
}

#[test]
fn response_without_success_indicator_fails() {
    let r = interpret_edit_response("{}", "raw", None, Some("{}".to_string()));
    assert!(r.is_err());
    let err = r.unwrap_err();
    assert_eq!("{}", err.patch_json);
    assert_eq!("raw", err.response);
    assert_eq!("failed to apply diff {}, result: raw", err.message());
}

#[test]
fn response_with_other_success_value_fails() {
    let r = interpret_edit_response("{}", "raw", Some(0), Some("{}".to_string()));
    assert!(r.is_err());
}

#[test]
fn response_without_entity_payload_fails() {
    let r = interpret_edit_response("{}", "raw", Some(1), None);
    assert!(r.is_err());
}
