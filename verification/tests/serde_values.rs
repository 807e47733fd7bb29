use deno_minus_v8::backend::TotallyLegitJSBackend;
use deno_minus_v8::data::{Function, String as JsString, Value};
use deno_minus_v8::double::Double;
use deno_minus_v8::error::Error;
use deno_minus_v8::handle::Local;
use deno_minus_v8::isolate::{Isolate, IsolateIds};
use deno_minus_v8::scope::HandleScope;
use deno_minus_v8::serde::{
    from_backend, from_v8, to_backend, wants_value, DeError, Deserialized, MapEntry, Serialized,
    UnexpectedKind, Value as SerdeValue,
};
use deno_minus_v8::wrappers::{ByteString, StringOrBuffer, ZeroCopyBuf};

fn read(input: Deserialized) -> Value {
    match SerdeValue::deserialize(input) {
        Ok(SerdeValue::FromBackend(value)) => value,
        Ok(SerdeValue::ToBackend(_)) => panic!("not from the backend"),
        Err(error) => panic!("{}", error.to_string()),
    }
}

fn refuse(input: Deserialized) -> DeError {
    match SerdeValue::deserialize(input) {
        Ok(_) => panic!("read"),
        Err(error) => error,
    }
}

fn integer(value: Value) -> f64 {
    match value {
        Value::Integer { inner } => f64::from_bits(inner.bits),
        _ => panic!("not a number"),
    }
}

fn entry(key: &str, value: Result<Option<&str>, &str>) -> MapEntry {
    MapEntry {
        key: key.to_string(),
        value: match value {
            Ok(Some(text)) => Ok(Some(text.to_string())),
            Ok(None) => Ok(None),
            Err(text) => Err(text.to_string()),
        },
    }
}

fn dictionary(entries: Vec<MapEntry>) -> Deserialized {
    Deserialized::Dictionary { entries, end: None }
}

#[test]
fn simple_values_are_read() {
    assert!(read(Deserialized::Bool(true)).is_true());
    assert!(matches!(read(Deserialized::Absent), Value::Null));
    assert!(matches!(read(Deserialized::Str("x".to_string())), Value::String { inner } if inner == "x"));
    assert!(matches!(read(Deserialized::Char('\u{1f600}')), Value::String { inner } if inner == "\u{1f600}"));
    assert_eq!(integer(read(Deserialized::Float(Double { bits: 1.5f64.to_bits() }))), 1.5);
}

#[test]
fn integers_are_read_as_numbers() {
    assert_eq!(integer(read(Deserialized::I8(-8))), -8.0);
    assert_eq!(integer(read(Deserialized::I16(-16))), -16.0);
    assert_eq!(integer(read(Deserialized::I32(i32::MIN))), i32::MIN as f64);
    assert_eq!(integer(read(Deserialized::I64(i64::MAX))), i64::MAX as f64);
    assert_eq!(integer(read(Deserialized::I128(i128::MIN))), i128::MIN as f64);
    assert_eq!(integer(read(Deserialized::U8(8))), 8.0);
    assert_eq!(integer(read(Deserialized::U16(16))), 16.0);
    assert_eq!(integer(read(Deserialized::U32(u32::MAX))), u32::MAX as f64);
    assert_eq!(integer(read(Deserialized::U64(u64::MAX))), u64::MAX as f64);
    assert_eq!(integer(read(Deserialized::U128(u128::MAX))), u128::MAX as f64);
}

#[test]
fn other_values_are_refused() {
    let refused = vec![
        (Deserialized::Bytes(vec![1]), UnexpectedKind::Bytes, "byte array"),
        (Deserialized::Present, UnexpectedKind::Optional, "Option value"),
        (Deserialized::Unit, UnexpectedKind::Unit, "unit value"),
        (Deserialized::NewtypeStruct, UnexpectedKind::NewtypeStruct, "newtype struct"),
        (Deserialized::Sequence, UnexpectedKind::Sequence, "sequence"),
        (Deserialized::Enum, UnexpectedKind::Enum, "enum"),
        (Deserialized::Other(2), UnexpectedKind::Other, "value of the embedder's"),
    ];
    for (input, expected, words) in refused {
        let error = refuse(input);
        assert_eq!(
            error.to_string(),
            format!(
                "invalid type: {}, expected expecting a boolean, integer, string, or exception",
                words
            )
        );
        match error {
            DeError::Unexpected(kind) => assert_eq!(kind, expected),
            _ => panic!("another error"),
        }
    }
}

#[test]
fn dictionaries_are_exceptions() {
    let value = read(dictionary(vec![
        entry("class", Ok(Some("Error"))),
        entry("stack", Err("never read")),
        entry("message", Ok(Some("boom"))),
    ]));
    match value {
        Value::Exception { class, message } => {
            assert_eq!((class.as_str(), message.as_str()), ("Error", "boom"))
        }
        _ => panic!("not an exception"),
    }
}

#[test]
fn later_entries_count() {
    let value = read(dictionary(vec![
        entry("message", Ok(Some("first"))),
        entry("class", Ok(Some("Error"))),
        entry("message", Ok(Some("second"))),
    ]));
    assert!(matches!(value, Value::Exception { message, .. } if message == "second"));
    let error = refuse(dictionary(vec![
        entry("class", Ok(Some("Error"))),
        entry("message", Ok(Some("first"))),
        entry("class", Ok(None)),
    ]));
    assert_eq!(error.to_string(), "expected Exception { class, message }");
}

#[test]
fn incomplete_dictionaries_are_refused() {
    for input in [
        dictionary(vec![]),
        dictionary(vec![entry("class", Ok(Some("Error")))]),
        dictionary(vec![entry("message", Ok(Some("boom")))]),
    ] {
        match refuse(input) {
            DeError::Custom(text) => assert_eq!(text, "expected Exception { class, message }"),
            _ => panic!("another error"),
        }
    }
}

#[test]
fn errors_of_reading_are_passed_on() {
    let error = refuse(dictionary(vec![
        entry("class", Err("first")),
        entry("message", Err("second")),
    ]));
    assert!(matches!(error, DeError::Access(text) if text == "first"));
    let error = refuse(Deserialized::Dictionary {
        entries: vec![
            entry("class", Ok(Some("Error"))),
            entry("message", Ok(Some("boom"))),
        ],
        end: Some("cut off".to_string()),
    });
    assert!(matches!(error, DeError::Access(text) if text == "cut off"));
}

#[test]
fn only_two_keys_are_read() {
    assert!(wants_value("class"));
    assert!(wants_value("message"));
    assert!(!wants_value("stack"));
    assert!(!wants_value(""));
    assert!(!wants_value("classes"));
}

#[test]
fn values_from_the_backend_are_not_sent_back() {
    let value = SerdeValue::FromBackend(Value::Null);
    match value.serialize() {
        Ok(_) => panic!("serialized"),
        Err(error) => {
            assert_eq!(error.to_string(), "serializing a Value::FromBackend is unsupported")
        }
    }
    let value = SerdeValue::ToBackend(Serialized::Boolean(true));
    assert!(matches!(value.serialize(), Ok(Serialized::Boolean(true))));
}

#[test]
fn values_for_the_backend_are_not_converted() {
    let text = "converting a Value::ToBackend to v8 is unsupported";
    let result = Value::try_from(SerdeValue::ToBackend(Serialized::Null));
    assert!(matches!(result, Err(error) if error.to_string() == text));
    let result: Result<Local<Function>, Error> =
        Local::try_from(SerdeValue::ToBackend(Serialized::Null));
    assert!(matches!(result, Err(error) if error.to_string() == text));
    let result: Result<Local<Function>, Error> =
        Local::try_from(SerdeValue::FromBackend(Value::Function { id: 4 }));
    assert!(matches!(result, Ok(function) if function.0 == 4));
    let result: Result<Local<Function>, Error> =
        Local::try_from(SerdeValue::FromBackend(Value::Null));
    assert!(matches!(result, Err(error) if error.to_string() == "cannot convert Value type"));
}

#[test]
fn values_are_sent_as_they_are() {
    let mut isolate = Isolate::new(IsolateIds::new().next().unwrap(), TotallyLegitJSBackend::new());
    let mut scope = HandleScope::new(&mut isolate);
    let sent = |scope: &mut HandleScope<TotallyLegitJSBackend>, value: Value| -> Serialized {
        let local = Local::from_raw(value).unwrap();
        let value: SerdeValue = from_v8(scope, local).unwrap();
        to_backend(scope, value).unwrap()
    };
    assert!(matches!(sent(&mut scope, Value::Object), Serialized::Object));
    assert!(matches!(sent(&mut scope, Value::Null), Serialized::Null));
    assert!(matches!(sent(&mut scope, Value::Undefined), Serialized::Null));
    assert!(matches!(sent(&mut scope, Value::Function { id: 7 }), Serialized::Function(7)));
    assert!(matches!(sent(&mut scope, Value::Promise { id: 8 }), Serialized::Promise(8)));
    assert!(matches!(
        sent(&mut scope, Value::Boolean { inner: false }),
        Serialized::Boolean(false)
    ));
    assert!(matches!(
        sent(&mut scope, Value::String { inner: "s".to_string() }),
        Serialized::String(text) if text == "s"
    ));
    assert!(matches!(
        sent(
            &mut scope,
            Value::Exception { class: "TypeError".to_string(), message: "m".to_string() }
        ),
        Serialized::Exception { class, message } if class == "TypeError" && message == "m"
    ));
    assert!(matches!(
        sent(&mut scope, Value::Integer { inner: Double::from_i32(3) }),
        Serialized::Integer(number) if number.bits == 3.0f64.to_bits()
    ));
}

#[test]
fn other_kinds_are_sent_through_values() {
    let mut isolate = Isolate::new(IsolateIds::new().next().unwrap(), TotallyLegitJSBackend::new());
    let mut scope = HandleScope::new(&mut isolate);
    let text = Local::from_raw(JsString("t".to_string())).unwrap();
    let value: SerdeValue = from_v8(&mut scope, text).unwrap();
    assert!(matches!(value, SerdeValue::ToBackend(Serialized::String(text)) if text == "t"));
    let value = SerdeValue::FromBackend(Value::Object);
    assert!(matches!(to_backend(&mut scope, value), Ok(Serialized::Unsupported)));
}

#[test]
fn values_come_back() {
    let mut isolate = Isolate::new(IsolateIds::new().next().unwrap(), TotallyLegitJSBackend::new());
    let mut scope = HandleScope::new(&mut isolate);
    let local = Local::from_raw(Value::Boolean { inner: true }).unwrap();
    let value: SerdeValue = from_v8(&mut scope, local).unwrap();
    let echo = match to_backend(&mut scope, value).unwrap() {
        Serialized::Boolean(flag) => Deserialized::Bool(flag),
        _ => panic!("not a boolean"),
    };
    let value: SerdeValue = from_backend(&mut scope, echo).unwrap();
    assert!(Value::try_from(value).unwrap().is_true());
    let local = Local::from_raw(Value::Function { id: -12 }).unwrap();
    let value: SerdeValue = from_v8(&mut scope, local).unwrap();
    let echo = match to_backend(&mut scope, value).unwrap() {
        Serialized::Function(id) => Deserialized::I32(id),
        _ => panic!("not a function"),
    };
    let value: SerdeValue = from_backend(&mut scope, echo).unwrap();
    let function: Local<Function> = Local::try_from(value).unwrap();
    assert_eq!(function.0, -12);
}

#[test]
fn failures_to_read_are_noted() {
    let mut isolate = Isolate::new(IsolateIds::new().next().unwrap(), TotallyLegitJSBackend::new());
    let mut scope = HandleScope::new(&mut isolate);
    let result: Result<SerdeValue, Error> = from_backend(&mut scope, Deserialized::Unit);
    match result {
        Ok(_) => panic!("read"),
        Err(Error::Context { context, source }) => {
            assert_eq!(context, "minus_v8: failed to deserialize value");
            assert_eq!(
                source.to_string(),
                "invalid type: unit value, expected expecting a boolean, integer, string, or exception"
            );
        }
        Err(_) => panic!("another error"),
    }
}

#[test]
fn byte_strings_are_latin1() {
    let bytes = ByteString::deserialize("caf\u{e9}\u{ff}".to_string()).unwrap();
    assert_eq!(bytes.0, "caf\u{e9}\u{ff}".as_bytes());
    assert!(matches!(bytes.serialize(), Serialized::String(text) if text == "caf\u{e9}\u{ff}"));
    assert_eq!(bytes.into_vec(), "caf\u{e9}\u{ff}".as_bytes());
    match ByteString::deserialize("\u{100}".to_string()) {
        Ok(_) => panic!("accepted"),
        Err(error) => assert_eq!(error.to_string(), "minus_v8: ExpectedLatin1"),
    }
    assert!(ByteString::deserialize(String::new()).is_ok());
}

#[test]
fn buffers_hold_bytes() {
    assert!(ZeroCopyBuf::empty().is_empty());
    assert_eq!(ZeroCopyBuf::new_temp(vec![1, 2]).to_temp(), vec![1, 2]);
    assert_eq!(&ZeroCopyBuf::from(vec![3]).into_bytes()[..], &[3]);
    assert_eq!(ByteString::from(vec![65]).len(), 1);
    assert_eq!(ByteString::from(vec![65]).clone(), ByteString(vec![65]));
    assert_eq!(ZeroCopyBuf::from(vec![3, 4]).clone(), ZeroCopyBuf(vec![3, 4]));
    assert!(ByteString::default().is_empty());
    assert!(ZeroCopyBuf::default().is_empty());
    assert!(matches!(ZeroCopyBuf::from(vec![3]).serialize(), Serialized::Bytes(bytes) if bytes == vec![3]));
}

#[test]
fn strings_or_buffers_are_read() {
    let text = StringOrBuffer::deserialize(Deserialized::Str("\u{e9}".to_string())).unwrap();
    assert_eq!(&*text, &[0xc3, 0xa9]);
    assert!(matches!(text.serialize(), Serialized::String(text) if text == "\u{e9}"));
    assert_eq!(&text.into_bytes()[..], &[0xc3, 0xa9]);
    let letter = StringOrBuffer::deserialize(Deserialized::Char('z')).unwrap();
    assert_eq!(&*letter, b"z");
    let buffer = StringOrBuffer::deserialize(Deserialized::Bytes(vec![0xff, 0])).unwrap();
    assert_eq!(&*buffer, &[0xff, 0]);
    assert!(matches!(buffer.serialize(), Serialized::Bytes(bytes) if bytes == vec![0xff, 0]));
    assert_eq!(&buffer.into_bytes()[..], &[0xff, 0]);
    match StringOrBuffer::deserialize(Deserialized::U8(1)) {
        Err(Deserialized::U8(1)) => {}
        _ => panic!("not handed back"),
    }
}
