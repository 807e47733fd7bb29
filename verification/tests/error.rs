use deno_minus_v8::data::{undefined, Value};
use deno_minus_v8::error::{
    abbrev_url, bad_resource, bad_resource_id, custom_error, format_file_name, format_source_loc,
    generic_error, get_custom_error_class, invalid_hostname, not_supported, range_error,
    resource_unavailable, type_error, uri_error, Error, JsError, JsStackFrame, UrlParts,
};
use deno_minus_v8::backend::TotallyLegitJSBackend;
use deno_minus_v8::isolate::{Isolate, IsolateIds};
use deno_minus_v8::scope::HandleScope;
use deno_minus_v8::state::ContextState;

#[test]
fn test_bad_resource() {
    let err = bad_resource("Resource has been closed");
    assert_eq!(err.to_string(), "Resource has been closed");
}

#[test]
fn test_bad_resource_id() {
    let err = bad_resource_id();
    assert_eq!(err.to_string(), "Bad resource ID");
}

#[test]
fn errors_have_classes() {
    let expected = [
        (generic_error("m"), "Error", "m"),
        (type_error("m"), "TypeError", "m"),
        (range_error("m"), "RangeError", "m"),
        (uri_error("m"), "URIError", "m"),
        (bad_resource("m"), "BadResource", "m"),
        (bad_resource_id(), "BadResource", "Bad resource ID"),
        (not_supported(), "NotSupported", "The operation is not supported"),
        (custom_error("Mine", "m"), "Mine", "m"),
        (invalid_hostname("a b"), "TypeError", "Invalid hostname: 'a b'"),
    ];
    for (error, class, message) in expected.iter() {
        assert_eq!(get_custom_error_class(error), Some(*class));
        assert_eq!(error.to_string(), *message);
    }
    let busy = resource_unavailable();
    assert_eq!(get_custom_error_class(&busy), Some("Busy"));
    assert_eq!(
        busy.to_string(),
        "Resource is unavailable because it is in use by a promise"
    );
}

#[test]
fn other_errors_have_no_class() {
    assert_eq!(get_custom_error_class(&Error::Message("m".to_string())), None);
    assert_eq!(get_custom_error_class(&Error::Js(bare())), None);
}

#[test]
fn context_shows_note_and_keeps_class() {
    let error = range_error("deep").context("while reading".to_string());
    assert_eq!(error.to_string(), "while reading");
    assert_eq!(get_custom_error_class(&error), Some("RangeError"));
    let error = error.context("outer".to_string());
    assert_eq!(get_custom_error_class(&error), Some("RangeError"));
}

fn bare() -> JsError {
    JsError {
        name: None,
        message: None,
        stack: None,
        cause: None,
        exception_message: "Uncaught Error: boom".to_string(),
        frames: vec![],
        source_line: None,
        source_line_frame_index: None,
        aggregated: None,
    }
}

#[test]
fn js_error_shows_long_stack() {
    let mut error = bare();
    error.stack = Some("Error: boom\n    at a.js:1:2".to_string());
    assert_eq!(error.to_string(), "Error: boom\n    at a.js:1:2");
}

#[test]
fn js_error_shows_message_beside_short_stack() {
    let mut error = bare();
    error.stack = Some("Error: boom\n".to_string());
    assert_eq!(error.to_string(), "Uncaught Error: boom");
}

#[test]
fn js_error_shows_first_frame() {
    let mut error = bare();
    error.frames = vec![
        JsStackFrame::from_location(Some("a.js".to_string()), Some(3), Some(-4)),
        JsStackFrame::from_location(Some("b.js".to_string()), Some(5), Some(6)),
    ];
    assert_eq!(error.to_string(), "Uncaught Error: boom\n    at a.js:3:-4");
    error.frames = vec![JsStackFrame::from_location(Some("a.js".to_string()), None, Some(4))];
    assert_eq!(error.to_string(), "Uncaught Error: boom");
}

#[test]
fn frame_of_location_knows_nothing_else() {
    let frame = JsStackFrame::from_location(Some("a.js".to_string()), Some(1), None);
    assert_eq!(frame.file_name.as_deref(), Some("a.js"));
    assert_eq!(frame.line_number, Some(1));
    assert_eq!(frame.column_number, None);
    assert_eq!(frame.typename, None);
    assert_eq!(frame.function_name, None);
    assert!(!frame.is_eval && !frame.is_native && !frame.is_constructor && !frame.is_async);
}

#[test]
fn source_location_is_colon_separated() {
    assert_eq!(format_source_loc("x.ts", 10, -20), "x.ts:10:-20");
    assert_eq!(
        format_source_loc("", i64::MIN, 0),
        ":-9223372036854775808:0"
    );
}

#[test]
fn short_and_foreign_file_names_are_kept() {
    assert_eq!(format_file_name("data:text/plain,abc"), "data:text/plain,abc");
    let long = format!("https://example.com/{}", "x".repeat(200));
    assert_eq!(format_file_name(&long), long);
    let no_url = "y".repeat(300);
    assert_eq!(format_file_name(&no_url), no_url);
}

#[test]
fn long_data_urls_are_cut() {
    let payload = format!("{}{}{}", "a".repeat(20), "b".repeat(200), "c".repeat(20));
    let name = format!("data:text/javascript,{}", payload);
    assert_eq!(
        format_file_name(&name),
        "data:text/javascript,aaaaaaaaaaaaaaaaaaaa......cccccccccccccccccccc"
    );
}

#[test]
fn url_parsing_normalizes_before_cutting() {
    let payload = format!("{}{}{}", "A".repeat(20), "b".repeat(200), "c".repeat(20));
    let name = format!("DATA:text/javascript,{}", payload);
    assert_eq!(
        format_file_name(&name),
        "data:text/javascript,AAAAAAAAAAAAAAAAAAAA......cccccccccccccccccccc"
    );
}

#[test]
fn url_without_payload_is_not_cut() {
    let url = UrlParts {
        href: "data:x".to_string(),
        scheme: "data".to_string(),
        path: "x".to_string(),
    };
    assert!(abbrev_url(&url).is_none());
    let url = UrlParts {
        href: "data:x,short".to_string(),
        scheme: "data".to_string(),
        path: "x,short".to_string(),
    };
    assert!(abbrev_url(&url).is_none());
}

#[test]
fn shortening_twice_is_shortening_once() {
    for head in [10, 200] {
        let name = format!("DATA:{};base64,{}", "h".repeat(head), "0123456789".repeat(20));
        let short = format_file_name(&name);
        assert_eq!(
            short,
            format!("data:{};base64,01234567890123456789......01234567890123456789", "h".repeat(head))
        );
        assert_eq!(format_file_name(&short), short);
    }
    let other = format!("date:{}", "0123456789,".repeat(20));
    assert_eq!(format_file_name(&other), other);
}

#[test]
fn thrown_values_have_no_text_by_default() {
    let mut isolate = Isolate::new(IsolateIds::new().next().unwrap(), TotallyLegitJSBackend::new());
    isolate.set_slot(0, ContextState::new(vec![]));
    let mut scope = HandleScope::new(&mut isolate);
    let value = undefined(&mut scope);
    assert!(matches!(*value, Value::Undefined));
    let error = JsError::from_v8_exception(&mut scope, value);
    assert_eq!(error.to_string(), "");
    assert!(error.frames.is_empty());
}

#[test]
fn errors_are_cloned_whole() {
    let mut inner = bare();
    inner.message = Some("inner".to_string());
    inner.frames = vec![JsStackFrame::from_location(Some("a.js".to_string()), Some(3), Some(-4))];
    let mut error = bare();
    error.cause = Some(Box::new(inner.clone()));
    error.aggregated = Some(vec![bare(), inner]);
    error.source_line_frame_index = Some(2);
    assert!(error.clone() == error);
    let mut other = error.clone();
    other.cause = None;
    assert!(other != error);
}
