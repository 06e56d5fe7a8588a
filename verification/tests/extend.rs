use attr_fields::{extend_fields, extract_fields, extract_required_attributes, ExtendError};

#[test]
fn test_extract_fields() {
    let input = r#"skip(some), fields(service.name = ServiceName::Database.as_ref(), db.operation = SqlOperation::Select.as_ref(), db.system = "postgresql"), ret(level = Level::WARN)"#.to_string();

    let (attr_left, fields, attr_right) = extract_fields(&input).unwrap();

    assert_eq!(attr_left, r#"skip(some), "#);

    assert_eq!(
        fields,
        r#"service.name = ServiceName::Database.as_ref(), db.operation = SqlOperation::Select.as_ref(), db.system = "postgresql""#
    );

    assert_eq!(attr_right, r#", ret(level = Level::WARN)"#);
}

#[test]
fn creates_group_on_empty_input() {
    assert_eq!(extend_fields("", "k=v", None).unwrap(), "fields(k=v)");
}

#[test]
fn creates_group_on_empty_input_web() {
    assert_eq!(
        extend_fields("", r#"span.type = "web""#, None).unwrap(),
        r#"fields(span.type = "web")"#
    );
}

#[test]
fn merges_into_existing_group() {
    assert_eq!(
        extend_fields(r#"fields(a = "x")"#, r#"b = "y""#, None).unwrap(),
        r#"fields(a = "x", b = "y")"#
    );
}

#[test]
fn merges_into_existing_group_web() {
    assert_eq!(
        extend_fields(r#"fields(service.name = "baz")"#, r#"span.type = "web""#, None).unwrap(),
        r#"fields(service.name = "baz", span.type = "web")"#
    );
}

#[test]
fn appends_group_when_none_exists() {
    assert_eq!(
        extend_fields("skip(self)", r#"b = "y""#, None).unwrap(),
        r#"skip(self), fields(b = "y")"#
    );
}

#[test]
fn relocates_required_attribute_into_existing_group() {
    assert_eq!(
        extend_fields(
            r#"service_name = ServiceName::Database.as_ref(), fields(db.name = "baz")"#,
            r#"span.type = "sql""#,
            Some(vec!["service_name"]),
        )
        .unwrap(),
        r#"fields(db.name = "baz", span.type = "sql", service.name = ServiceName::Database.as_ref())"#
    );
}

#[test]
fn relocates_required_attribute_without_group() {
    assert_eq!(
        extend_fields(
            r#"service_name = "database", skip(self)"#,
            r#"span.type = "sql""#,
            Some(vec!["service_name"]),
        )
        .unwrap(),
        r#"skip(self), fields(span.type = "sql", service.name = "database")"#
    );
}

#[test]
fn no_stray_separator_with_empty_extra_fields() {
    assert_eq!(
        extend_fields(r#"fields(a = "x")"#, "", None).unwrap(),
        r#"fields(a = "x")"#
    );
}

#[test]
fn no_stray_separator_with_empty_interior() {
    assert_eq!(extend_fields("fields()", "b = 1", None).unwrap(), "fields(b = 1)");
}

#[test]
fn no_stray_separator_with_only_relocated_field() {
    assert_eq!(
        extend_fields("service_name = x, fields(a = 1)", "", Some(vec!["service_name"])).unwrap(),
        "fields(a = 1, service.name = x)"
    );
}

#[test]
fn missing_required_attribute_fails() {
    assert_eq!(
        extend_fields("skip(self)", "a = 1", Some(vec!["service_name"])),
        Err(ExtendError::MissingAttribute { name: "service_name".to_string() })
    );
}

#[test]
fn unsupported_required_name_fails() {
    assert_eq!(
        extend_fields("skip(self)", "a = 1", Some(vec!["operation_name"])),
        Err(ExtendError::Configuration { name: "operation_name".to_string() })
    );
}

#[test]
fn required_attributes_on_empty_input_fail() {
    assert_eq!(
        extend_fields("", "a = 1", Some(vec!["service_name"])),
        Err(ExtendError::RequiredOnEmpty)
    );
}

#[test]
fn empty_required_list_on_empty_input_is_allowed() {
    assert_eq!(extend_fields("", "a = 1", Some(vec![])).unwrap(), "fields(a = 1)");
}

#[test]
fn unbalanced_group_fails() {
    assert_eq!(
        extend_fields("fields(a", "b = 1", None),
        Err(ExtendError::MalformedNesting)
    );
}

#[test]
fn group_swallowed_by_extraction_fails() {
    assert_eq!(
        extend_fields("service_name = fields(x)", "", Some(vec!["service_name"])),
        Err(ExtendError::MalformedNesting)
    );
}

#[test]
fn reassembly_reproduces_the_input() {
    let input = r#"a, fields(b(c), d), e"#;
    let (left, fields, right) = extract_fields(input).unwrap();
    assert_eq!(format!("{left}fields({fields}){right}"), input);
}

#[test]
fn empty_input_and_empty_extra_fields_give_empty_group() {
    assert_eq!(extend_fields("", "", None).unwrap(), "fields()");
}

#[test]
fn empty_extra_fields_append_empty_group() {
    assert_eq!(extend_fields("skip(self)", "", None).unwrap(), "skip(self), fields()");
}

#[test]
fn repeated_required_name_extracts_successive_matches() {
    let (rem, flds) = extract_required_attributes(
        "service_name = a, service_name = b",
        Some(vec!["service_name", "service_name"]),
    )
    .unwrap();
    assert_eq!(rem, "");
    assert_eq!(flds, "service.name = a, service.name = b");
}

#[test]
fn unsupported_name_after_supported_one_fails() {
    assert_eq!(
        extend_fields(
            "service_name = a, skip(self)",
            "x = 1",
            Some(vec!["service_name", "operation_name"]),
        ),
        Err(ExtendError::Configuration { name: "operation_name".to_string() })
    );
}

#[test]
fn extraction_without_required_names_returns_input() {
    let (rem, flds) = extract_required_attributes("skip(self), level = 3", None).unwrap();
    assert_eq!(rem, "skip(self), level = 3");
    assert_eq!(flds, "");
}

#[test]
fn extraction_removes_match_and_trailing_separator() {
    let (rem, flds) =
        extract_required_attributes("service_name = foo, skip(self)", Some(vec!["service_name"]))
            .unwrap();
    assert_eq!(rem, "skip(self)");
    assert_eq!(flds, "service.name = foo");
}

#[test]
fn extraction_value_stops_at_whitespace() {
    let (rem, flds) =
        extract_required_attributes("service_name = a b", Some(vec!["service_name"])).unwrap();
    assert_eq!(rem, "b");
    assert_eq!(flds, "service.name = a");
}

#[test]
fn extraction_value_keeps_call_parentheses() {
    let (rem, flds) = extract_required_attributes(
        "skip(self), service_name = ServiceName::Queue.as_ref()",
        Some(vec!["service_name"]),
    )
    .unwrap();
    assert_eq!(rem, "skip(self), ");
    assert_eq!(flds, "service.name = ServiceName::Queue.as_ref()");
}
