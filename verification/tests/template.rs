use arrow_exporter::placeholder::{parse_placeholders, render, FieldValues};
use arrow_exporter::template::{
    render_example, validate_template, ObjectPathTemplate, DEFAULT_OBJECT_PATH_TEMPLATE,
};
use arrow_exporter::text::{
    find_from, replace, same_text, to_decimal, to_lower, to_zero_padded, to_zero_padded_int,
};

/// Scenario: Object path templates omit payload or pdata identity placeholders.
/// Guarantees: Operators may choose object naming and collision semantics.
#[test]
fn accepts_object_path_templates_without_identity_placeholders() {
    for template in ["[payload]/file.arrow", "[pdata_id].arrow", "file.arrow"] {
        let _template = ObjectPathTemplate::parse(template).expect("template should be accepted");
    }
}

/// Scenario: Object path templates contain unsafe syntax.
/// Guarantees: Configuration rejects traversal, absolute paths, and malformed templates.
#[test]
fn rejects_unsafe_object_path_templates() {
    for template in [
        "/[payload]/[pdata_id].arrow",
        "../[payload]/[pdata_id].arrow",
        "[payload]/../[pdata_id].arrow",
        "[payload]\\[pdata_id].arrow",
        "[payload]/[unknown]/[pdata_id].arrow",
        "[payload]/[pdata_id",
        "[payload]/[pdata_id].ipc",
    ] {
        assert!(
            ObjectPathTemplate::parse(template).is_err(),
            "template should be rejected: {template}"
        );
    }
}

fn rejection(template: &str) -> String {
    ObjectPathTemplate::parse(template)
        .err()
        .expect("template should be rejected")
}

#[test]
fn rejections_name_the_first_fault() {
    assert_eq!(rejection(""), "object path template cannot be empty");
    assert_eq!(rejection("/a.arrow"), "object path template must be relative");
    assert_eq!(rejection("\\a.arrow"), "object path template must be relative");
    assert_eq!(
        rejection("a\\b.arrow"),
        "object path template cannot contain backslashes"
    );
    assert_eq!(
        rejection("a.arrow/"),
        "object path template must end with .arrow"
    );
    assert_eq!(
        rejection("arrow"),
        "object path template must end with .arrow"
    );
    assert_eq!(
        rejection("a]b.arrow"),
        "object path template contains an unmatched ']'"
    );
    assert_eq!(
        rejection("[day]]b.arrow"),
        "object path template contains an unmatched ']'"
    );
    assert_eq!(
        rejection("a][day].arrow"),
        "object path template contains an unmatched ']'"
    );
    assert_eq!(
        rejection("[day]/[hour.arrow"),
        "object path template contains an unmatched '['"
    );
    assert_eq!(
        rejection("[second].arrow"),
        "unsupported object path placeholder [second]"
    );
    assert_eq!(
        rejection("[[day]].arrow"),
        "unsupported object path placeholder [[day]"
    );
    assert_eq!(
        rejection("[].arrow"),
        "unsupported object path placeholder []"
    );
}

#[test]
fn rejects_templates_whose_example_is_no_path() {
    for template in ["a//b.arrow", "./b.arrow", "a/../b.arrow", "a\u{7}b.arrow"] {
        assert!(
            rejection(template).starts_with("object path template produces an invalid path: "),
            "{template}"
        );
    }
}

#[test]
fn accepts_text_that_is_not_ascii() {
    let template = ObjectPathTemplate::parse("größe/[day].arrow").expect("accept template");
    assert_eq!(template.as_str(), "größe/[day].arrow");
    assert_eq!(template.clone(), template);
    assert_eq!(validate_template("größe/[day].arrow"), Ok(()));
}

#[test]
fn default_template_is_accepted() {
    let template = ObjectPathTemplate::default();
    assert_eq!(template.as_str(), DEFAULT_OBJECT_PATH_TEMPLATE);
    assert_eq!(
        ObjectPathTemplate::parse(DEFAULT_OBJECT_PATH_TEMPLATE),
        Ok(template)
    );
    assert_eq!(
        render_example(DEFAULT_OBJECT_PATH_TEMPLATE),
        "otap/v1/signal=logs/payload=resource_attrs/date=2026-07-26/hour=00/\
         019f9bd8-0446-78f0-b8b9-c662301b9876.arrow"
    );
}

#[test]
fn example_fills_every_placeholder() {
    assert_eq!(
        render_example("[year]|[month]|[day]|[hour]|[minute]|[date]|[signal][signal]"),
        "2026|07|26|00|34|2026-07-26|logslogs"
    );
}

fn values(signal: &str, payload: &str) -> FieldValues {
    FieldValues {
        signal: signal.to_string(),
        payload: payload.to_string(),
        pdata_id: "id".to_string(),
        date: "date".to_string(),
        year: "year".to_string(),
        month: "month".to_string(),
        day: "day".to_string(),
        hour: "hour".to_string(),
        minute: "minute".to_string(),
    }
}

#[test]
fn values_are_filled_in_one_after_the_other() {
    assert_eq!(
        render("[signal]/[payload]/[unknown]/[day", &values("logs", "spans")),
        "logs/spans/[unknown]/[day"
    );
    // Values that hold brackets are searched for the placeholders that come later.
    assert_eq!(
        render("[signal]/[payload]", &values("[payload]", "[signal]")),
        "[signal]/[signal]"
    );
}

#[test]
fn placeholders_are_known_by_name() {
    for name in [
        "signal", "payload", "pdata_id", "date", "year", "month", "day", "hour", "minute",
    ] {
        assert_eq!(parse_placeholders(&format!("[{name}]")), Ok(()));
    }
    for name in ["", "Signal", "second", "signal "] {
        assert_eq!(
            parse_placeholders(&format!("[{name}]")),
            Err(format!("unsupported object path placeholder [{name}]"))
        );
    }
    assert_eq!(parse_placeholders("a[day]b[hour]"), Ok(()));
    assert_eq!(parse_placeholders(""), Ok(()));
}

#[test]
fn text_operations_give_exact_results() {
    assert_eq!(replace("aXbXXc", "X", "--"), "a--b----c");
    assert_eq!(replace("aaaa", "aaa", "b"), "ba");
    assert_eq!(replace("abc", "d", "e"), "abc");
    assert_eq!(to_lower("LOG_ATTRS ÄÖ"), "log_attrs ÄÖ");
    assert_eq!(to_decimal(0), "0");
    assert_eq!(to_decimal(1907), "1907");
    assert_eq!(to_zero_padded(7, 2), "07");
    assert_eq!(to_zero_padded(123, 2), "123");
    assert_eq!(to_zero_padded_int(2026, 4), "2026");
    assert_eq!(to_zero_padded_int(-5, 4), "-005");
    assert_eq!(to_zero_padded_int(12026, 4), "12026");
    assert!(same_text("größe", "größe"));
    assert!(!same_text("größe", "groesse"));
    let chars: Vec<char> = "größe".chars().collect();
    assert_eq!(find_from(&chars, 0, 'ß'), 3);
    assert_eq!(find_from(&chars, 4, 'ß'), 5);
}
