use deno_minus_v8::backend::TotallyLegitJSBackend;
use deno_minus_v8::data::{
    undefined, Boolean, Exception, Function, Integer, Object, Promise, String as JsString, Value,
};
use deno_minus_v8::double::Double;
use deno_minus_v8::error::Error;
use deno_minus_v8::handle::{Global, Handle, Local};
use deno_minus_v8::isolate::{Context, Isolate, IsolateIds, V8};
use deno_minus_v8::scope::{HandleScope, TryCatch};
use deno_minus_v8::state::ContextState;

fn isolate() -> Isolate<TotallyLegitJSBackend> {
    let mut ids = IsolateIds::new();
    ids.next();
    Isolate::new(ids.next().unwrap(), TotallyLegitJSBackend::new())
}

fn number(value: f64) -> Double {
    Double { bits: value.to_bits() }
}

#[test]
fn doubles_agree_with_casts() {
    let samples: [i128; 14] = [
        0,
        1,
        -1,
        2,
        -7,
        1 << 53,
        (1 << 53) + 1,
        (1 << 53) + 3,
        -((1 << 54) + 6),
        i64::MAX as i128,
        i64::MIN as i128,
        i128::MAX,
        i128::MIN,
        12345678901234567890,
    ];
    for v in samples.iter() {
        assert_eq!(Double::from_i128(*v).bits, (*v as f64).to_bits());
    }
    for v in [0u128, 1, u64::MAX as u128, u128::MAX, u128::MAX - (1 << 70), 3 << 100].iter() {
        assert_eq!(Double::from_u128(*v).bits, (*v as f64).to_bits());
    }
    assert_eq!(Double::from_i32(i32::MIN).bits, (i32::MIN as f64).to_bits());
    assert_eq!(Double::from_u32(u32::MAX).bits, (u32::MAX as f64).to_bits());
}

#[test]
fn doubles_cast_back_as_rust_does() {
    let samples = [
        0.0,
        -0.0,
        1.0,
        -1.0,
        1.9,
        -1.9,
        0.4,
        2147483647.0,
        2147483648.0,
        -2147483648.0,
        -2147483649.5,
        1e300,
        -1e300,
        f64::NAN,
        f64::INFINITY,
        f64::NEG_INFINITY,
        f64::MIN_POSITIVE,
        5e-324,
        123456.789,
    ];
    for v in samples.iter() {
        assert_eq!(number(*v).to_i32(), *v as i32);
    }
}

#[test]
fn number_of_an_id_gives_it_back() {
    for id in [0, 1, -1, i32::MAX, i32::MIN, 77].iter() {
        let value = Value::Integer { inner: Double::from_i32(*id) };
        assert_eq!(Function::try_from(value.clone()).unwrap().0, *id);
        assert_eq!(Promise::try_from(value).unwrap().0, *id);
    }
}

#[test]
fn kinds_are_told_apart() {
    assert!(Value::Undefined.is_undefined());
    assert!(!Value::Null.is_undefined());
    assert!(Value::Null.is_null_or_undefined());
    assert!(Value::Undefined.is_null_or_undefined());
    assert!(!Value::Object.is_null_or_undefined());
    assert!(Value::Boolean { inner: true }.is_true());
    assert!(!Value::Boolean { inner: false }.is_true());
    assert!(!Value::Integer { inner: number(1.0) }.is_true());
}

#[test]
fn conversions_keep_values() {
    assert!(Object::try_from(Value::from(Object {})).is_ok());
    assert_eq!(
        JsString::try_from(Value::from(JsString("text".to_string()))).unwrap().0,
        "text"
    );
    assert!(Boolean::try_from(Value::from(Boolean(true))).unwrap().0);
    assert_eq!(
        Integer::try_from(Value::from(Integer(number(2.5)))).unwrap().0.bits,
        2.5f64.to_bits()
    );
    assert_eq!(Function::try_from(Value::from(Function(-3))).unwrap().0, -3);
    assert_eq!(Promise::try_from(Value::from(Promise(9))).unwrap().0, 9);
    let exception = Exception { class: "Error".to_string(), message: "m".to_string() };
    let exception = Exception::try_from(Value::from(exception)).unwrap();
    assert_eq!((exception.class.as_str(), exception.message.as_str()), ("Error", "m"));
}

#[test]
fn wrong_kinds_are_not_converted() {
    fn text<T>(result: Result<T, Error>) -> String {
        match result {
            Ok(_) => panic!("converted"),
            Err(error) => error.to_string(),
        }
    }
    let expected = "cannot convert Value type";
    assert_eq!(text(Object::try_from(Value::Null)), expected);
    assert_eq!(text(JsString::try_from(Value::Undefined)), expected);
    assert_eq!(text(Boolean::try_from(Value::Object)), expected);
    assert_eq!(text(Integer::try_from(Value::Function { id: 1 })), expected);
    assert_eq!(text(Function::try_from(Value::Promise { id: 1 })), expected);
    assert_eq!(text(Promise::try_from(Value::Function { id: 1 })), expected);
    assert_eq!(text(Exception::try_from(Value::Null)), expected);
}

#[test]
fn strings_are_made_of_utf8() {
    let mut isolate = isolate();
    let mut scope = HandleScope::new(&mut isolate);
    let text = JsString::new(&mut scope, "h\u{e9}llo").unwrap();
    assert_eq!(text.0, "h\u{e9}llo");
    assert_eq!(
        JsString::new_from_utf8(&mut scope, &[0x68, 0xc3, 0xa9]).unwrap().0,
        "h\u{e9}"
    );
    assert!(JsString::new_from_utf8(&mut scope, &[0xff, 0xfe]).is_none());
    assert!(JsString::check_len(&[0; 10]));
}

#[test]
fn numbers_are_made_of_integers() {
    let mut isolate = isolate();
    let mut scope = HandleScope::new(&mut isolate);
    assert_eq!(Integer::new(&mut scope, -5).0.bits, (-5.0f64).to_bits());
    assert_eq!(
        Integer::new_from_unsigned(&mut scope, u32::MAX).0.bits,
        4294967295.0f64.to_bits()
    );
}

#[test]
fn exceptions_carry_class_and_message() {
    let mut isolate = isolate();
    let mut scope = HandleScope::new(&mut isolate);
    let message = JsString::new(&mut scope, "bad").unwrap();
    match &*Exception::error(&mut scope, message.clone()) {
        Value::Exception { class, message } => {
            assert_eq!((class.as_str(), message.as_str()), ("Error", "bad"))
        }
        _ => panic!("not an exception"),
    }
    match &*Exception::type_error(&mut scope, message) {
        Value::Exception { class, message } => {
            assert_eq!((class.as_str(), message.as_str()), ("TypeError", "bad"))
        }
        _ => panic!("not an exception"),
    }
}

#[test]
fn handles_share_their_value() {
    let mut isolate = isolate();
    let local: Local<Boolean> = Local::from_raw(Boolean(true)).unwrap();
    let global = Global::new(&mut isolate, local.clone());
    let back: Local<Boolean> = Local::new(&mut isolate, global.clone());
    assert!(global.open(&mut isolate).0);
    assert!(back.0);
    let value = local.into_value();
    assert!(value.is_true());
}

#[test]
fn handles_compare_by_value() {
    let mut isolate = isolate();
    let a: Global<i32> = Global::from_raw(&mut isolate, 5).unwrap();
    let b: Local<i32> = Local::from_raw(5).unwrap();
    let c: Local<i32> = Local::from_raw(6).unwrap();
    assert!(a == b);
    assert!(b == a);
    assert!(a != c);
}

#[test]
fn isolates_keep_data_and_slots() {
    let mut isolate = isolate();
    assert!(isolate.get_slot(0).is_none());
    isolate.set_data(3, 70);
    isolate.set_data(4, 80);
    isolate.set_data(3, 90);
    assert_eq!(isolate.get_data(3), 90);
    assert_eq!(isolate.get_data(4), 80);
    isolate.set_slot(0, ContextState::new(vec![]));
    isolate.set_slot(1, ContextState::new(vec![]));
    isolate.slots[1].unrefed_ops.insert(4);
    isolate.set_slot(0, ContextState::new(vec![]));
    assert!(isolate.get_slot(0).unwrap().unrefed_ops.is_empty());
    assert!(isolate.get_slot(1).unwrap().unrefed_ops.contains(&4));
    assert!(isolate.get_slot(2).is_none());
    assert!(!isolate.is_execution_terminating());
    assert!(isolate.terminate_execution());
    assert!(!isolate.is_execution_terminating());
}

#[test]
fn contexts_have_a_global_object() {
    let mut isolate = isolate();
    let mut scope = HandleScope::new(&mut isolate);
    let context = Context::new(&mut scope);
    let _: Local<Object> = context.global(&mut scope);
    assert_eq!((context.isolate_id, context.realm_idx), (1, 0));
    context.set_slot(&mut *scope.isolate, ContextState::new(vec![]));
    assert_eq!(Context::new(&mut scope).realm_idx, 1);
    let current: Local<Context> = isolate.get_current_context();
    assert_eq!((current.isolate_id, current.realm_idx), (1, 0));
}

#[test]
fn nothing_is_caught() {
    let mut isolate = isolate();
    let mut scope = HandleScope::new(&mut isolate);
    assert!(undefined(&mut scope).is_undefined());
    let try_catch = TryCatch::new(&mut scope);
    assert!(!try_catch.has_caught());
    assert!(!try_catch.has_terminated());
    assert!(try_catch.exception().is_none());
}

#[test]
fn version_is_fixed() {
    assert_eq!(V8::get_version(), "10.4.20.69+deno_minus_v8_shim");
}
