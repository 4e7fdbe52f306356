use kero::policy::model::ScopeValue;
use kero::policy::scope::{
    parse_scope, scope_contains, scope_matches, scope_set_match, scopes_contain, type_known,
    ScopeError,
};

#[test]
fn typed_scope_containment_is_conservative() {
    assert_eq!(
        scope_contains(
            &parse_scope("path:src/**").unwrap(),
            &parse_scope("path:src/parser/**").unwrap()
        ),
        Some(true)
    );
    assert_eq!(
        scope_contains(
            &parse_scope("path:src/parser/**").unwrap(),
            &parse_scope("path:tests/**").unwrap()
        ),
        Some(false)
    );
    assert_eq!(
        scope_contains(
            &parse_scope("path:src/*/generated.rs").unwrap(),
            &parse_scope("path:src/**/generated.rs").unwrap()
        ),
        None
    );
}

#[test]
fn paths_are_abstract_and_cannot_escape() {
    for invalid in ["path:/etc/passwd", "path:../secret", "path:C:\\secret"] {
        assert!(parse_scope(invalid).is_err(), "accepted {invalid}");
    }
    assert_eq!(
        parse_scope("path:src\\main.rs").unwrap().canonical(),
        "path:src/main.rs"
    );
}

#[test]
fn same_type_scope_expressions_are_alternatives() {
    let constraints = [
        parse_scope("path:src/**").unwrap(),
        parse_scope("path:tests/**").unwrap(),
    ];
    assert_eq!(
        scope_set_match(
            &constraints,
            &[],
            &[parse_scope("path:src/main.rs").unwrap()]
        ),
        Some(true)
    );
    assert_eq!(
        scope_set_match(
            &constraints,
            &[],
            &[parse_scope("path:docs/index.md").unwrap()]
        ),
        Some(false)
    );
}

#[test]
fn every_request_target_must_be_covered_by_a_declared_scope() {
    assert_eq!(
        scope_set_match(
            &[parse_scope("path:src/**").unwrap()],
            &[],
            &[
                parse_scope("path:src/main.rs").unwrap(),
                parse_scope("repository:example").unwrap(),
            ],
        ),
        Some(false)
    );
    assert_eq!(
        scope_set_match(
            &[parse_scope("path:src/**").unwrap()],
            &["repository".into()],
            &[
                parse_scope("path:src/main.rs").unwrap(),
                parse_scope("repository:example").unwrap(),
            ],
        ),
        Some(true)
    );
}

fn scope(text: &str) -> ScopeValue {
    parse_scope(text).unwrap()
}

#[test]
fn parse_errors_carry_the_offending_text() {
    assert_eq!(parse_scope("nocolon"), Err(ScopeError::Invalid("nocolon".into())));
    assert_eq!(parse_scope("file:x"), Err(ScopeError::UnknownType("file".into())));
    assert_eq!(parse_scope("path:"), Err(ScopeError::Invalid("".into())));
    assert_eq!(parse_scope("path:src//x"), Err(ScopeError::Invalid("src//x".into())));
    assert_eq!(parse_scope("path:src/./x"), Err(ScopeError::Invalid("src/./x".into())));
    assert_eq!(parse_scope("path:src/"), Err(ScopeError::Invalid("src/".into())));
    assert_eq!(parse_scope("branch:a**"), Err(ScopeError::Invalid("a**".into())));
    assert_eq!(parse_scope("branch:a*b"), Err(ScopeError::Invalid("a*b".into())));
    assert_eq!(parse_scope("branch:a b"), Err(ScopeError::Invalid("a b".into())));
    assert_eq!(scope("branch:release.*").expression, "release.*");
    assert_eq!(scope("service:*").expression, "*");
    assert_eq!(parse_scope("path:a:b"), Err(ScopeError::Invalid("a:b".into())));
    assert!(type_known("knowledge"));
    assert!(!type_known("file"));
}

#[test]
fn wildcard_forms_match_and_undecided_forms_stay_open() {
    assert_eq!(scope_matches(&scope("path:src/**"), &scope("path:src")), Some(true));
    assert_eq!(scope_matches(&scope("path:src/**"), &scope("path:srcx/a")), Some(false));
    assert_eq!(scope_matches(&scope("path:**"), &scope("path:a/b")), Some(true));
    assert_eq!(scope_matches(&scope("path:src/*.rs"), &scope("path:src/a.rs")), None);
    assert_eq!(scope_matches(&scope("branch:release.*"), &scope("branch:release.1")), Some(true));
    assert_eq!(scope_matches(&scope("branch:release.*"), &scope("branch:releases")), Some(false));
    assert_eq!(scope_matches(&scope("branch:main"), &scope("path:main")), Some(false));
    assert_eq!(scope_contains(&scope("branch:a.*"), &scope("branch:a.b.*")), Some(true));
    assert_eq!(
        scopes_contain(&[scope("path:src/**")], &[], &[scope("path:src/a")], &["branch".into()]),
        Some(false)
    );
    assert_eq!(
        scopes_contain(&[scope("path:src/**")], &["branch".into()], &[scope("path:src/a")], &["branch".into()]),
        Some(true)
    );
    assert_eq!(scope_set_match(&[], &[], &[scope("path:anything")]), Some(true));
    assert_eq!(
        scope_set_match(&[scope("path:src/*.rs")], &[], &[scope("path:src/a.rs")]),
        None
    );
}

#[test]
fn containment_carries_through_nested_scopes() {
    let outer = parse_scope("path:src/**").unwrap();
    let middle = parse_scope("path:src/parser/**").unwrap();
    let inner = parse_scope("path:src/parser/lexer/**").unwrap();
    assert_eq!(scope_contains(&outer, &middle), Some(true));
    assert_eq!(scope_contains(&middle, &inner), Some(true));
    assert_eq!(scope_contains(&outer, &inner), Some(true));
    let service = parse_scope("service:api.*").unwrap();
    let narrower = parse_scope("service:api.v1.*").unwrap();
    let exact = parse_scope("service:api.v1.users").unwrap();
    assert_eq!(scope_contains(&service, &narrower), Some(true));
    assert_eq!(scope_contains(&narrower, &exact), Some(true));
    assert_eq!(scope_contains(&service, &exact), Some(true));
}

#[test]
fn canonical_scopes_parse_back_to_themselves() {
    for raw in ["path:src\\main.rs", "path:src/**", "service:api.v1.*", "branch:main", "repository:*"] {
        let parsed = parse_scope(raw).unwrap();
        assert_eq!(parse_scope(&parsed.canonical()).unwrap(), parsed, "{raw}");
    }
}
