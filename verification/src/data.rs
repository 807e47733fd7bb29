//! JavaScript values as native code sees them.
use crate::backend::{called, last_answer, serialized_views, Call, JsBackend};
use crate::double::Double;
use crate::error::Error;
use crate::handle::{HandleInternal, Local};
use crate::scope::HandleScope;
use crate::serde::{
    from_backend, reads, sent, to_backend, DeError, Deserialized, FromV8, Serialized,
    Value as SerdeValue,
};
use crate::text::string_from_utf8;
use std::string::String as StdString;
use vstd::prelude::*;
use vstd::std_specs::convert::{FromSpec, FromSpecImpl, TryFromSpecImpl};
use vstd::utf8::{decode_utf8, encode_utf8, valid_utf8};

verus! {

#[derive(Debug)]
#[allow(inconsistent_fields)]
pub enum Value {
    Object,
    String { inner: StdString },
    Boolean { inner: bool },
    Integer { inner: Double },
    Function { id: i32 },
    Promise { id: i32 },
    Exception { class: StdString, message: StdString },
    Null,
    Undefined,
}

/// What a [`Value`] says.
pub enum ValueView {
    Object,
    String(Seq<char>),
    Boolean(bool),
    Integer(Double),
    Function(i32),
    Promise(i32),
    Exception { class: Seq<char>, message: Seq<char> },
    Null,
    Undefined,
}

impl View for Value {
    type V = ValueView;

    open spec fn view(&self) -> ValueView {
        match *self {
            Value::Object => ValueView::Object,
            Value::String { inner } => ValueView::String(inner@),
            Value::Boolean { inner } => ValueView::Boolean(inner),
            Value::Integer { inner } => ValueView::Integer(inner),
            Value::Function { id } => ValueView::Function(id),
            Value::Promise { id } => ValueView::Promise(id),
            Value::Exception { class, message } => ValueView::Exception {
                class: class@,
                message: message@,
            },
            Value::Null => ValueView::Null,
            Value::Undefined => ValueView::Undefined,
        }
    }
}

impl Clone for Value {
    fn clone(&self) -> (copy: Self)
        ensures
            copy == *self,
    {
        match self {
            Value::Object => Value::Object,
            Value::String { inner } => Value::String { inner: inner.clone() },
            Value::Boolean { inner } => Value::Boolean { inner: *inner },
            Value::Integer { inner } => Value::Integer { inner: *inner },
            Value::Function { id } => Value::Function { id: *id },
            Value::Promise { id } => Value::Promise { id: *id },
            Value::Exception { class, message } => Value::Exception {
                class: class.clone(),
                message: message.clone(),
            },
            Value::Null => Value::Null,
            Value::Undefined => Value::Undefined,
        }
    }
}

impl Value {
    pub fn is_undefined(&self) -> (yes: bool)
        ensures
            yes == (self is Undefined),
    {
        matches!(self, Value::Undefined)
    }

    pub fn is_null_or_undefined(&self) -> (yes: bool)
        ensures
            yes == (self is Null || self is Undefined),
    {
        matches!(self, Value::Null | Value::Undefined)
    }

    /// Whether this is `true` itself, and not merely a value that counts as true.
    pub fn is_true(&self) -> (yes: bool)
        ensures
            yes == (*self == Value::Boolean { inner: true }),
    {
        match self {
            Value::Boolean { inner } => *inner,
            _ => false,
        }
    }
}

#[derive(Debug)]
pub struct Object {}

impl Clone for Object {
    fn clone(&self) -> (copy: Self)
        ensures
            copy == *self,
    {
        Object {  }
    }
}

#[derive(Debug)]
pub struct String(pub StdString);

impl Clone for String {
    fn clone(&self) -> (copy: Self)
        ensures
            copy == *self,
    {
        String(self.0.clone())
    }
}

#[derive(Clone, Copy, Debug)]
pub struct Boolean(pub bool);

#[derive(Clone, Copy, Debug)]
pub struct Integer(pub Double);

#[derive(Clone, Copy, Debug)]
pub struct Function(pub i32);

#[derive(Clone, Copy, Debug)]
pub struct Promise(pub i32);

#[derive(Debug)]
pub struct Exception {
    pub class: StdString,
    pub message: StdString,
}

impl Clone for Exception {
    fn clone(&self) -> (copy: Self)
        ensures
            copy == *self,
    {
        Exception { class: self.class.clone(), message: self.message.clone() }
    }
}

/// The most bytes that a string can have: V8's limit, which depends on the word size.
pub open spec fn max_string_length() -> nat {
    if usize::BITS == 32 {
        268_435_440
    } else {
        536_870_888
    }
}

impl String {
    /// For compatibility we impose V8's limit on the length of a string.
    pub fn check_len(buffer: &[u8]) -> (fits: bool)
        ensures
            fits == (buffer@.len() <= max_string_length()),
    {
        if usize::BITS == 32 {
            buffer.len() <= 268_435_440
        } else {
            buffer.len() <= 536_870_888
        }
    }

    pub fn new<'s, B>(scope: &mut HandleScope<'s, B>, value: &str) -> (handle: Option<
        Local<'s, String>,
    >)
        ensures
            match handle {
                Some(handle) => encode_utf8(value@).len() <= max_string_length()
                    && handle.value().0@ == value@,
                None => encode_utf8(value@).len() > max_string_length(),
            },
            *final(scope) == *old(scope),
    {
        proof {
            vstd::utf8::encode_utf8_valid_utf8(value@);
            vstd::utf8::encode_utf8_decode_utf8(value@);
        }
        match String::new_from_utf8(scope, value.as_bytes()) {
            Some(text) => Local::from_raw(text),
            None => None,
        }
    }

    pub fn new_from_utf8<'s, B>(scope: &mut HandleScope<'s, B>, buffer: &[u8]) -> (text: Option<
        Self,
    >)
        ensures
            match text {
                Some(text) => buffer@.len() <= max_string_length() && valid_utf8(buffer@)
                    && text.0@ == decode_utf8(buffer@),
                None => buffer@.len() > max_string_length() || !valid_utf8(buffer@),
            },
            *final(scope) == *old(scope),
    {
        if String::check_len(buffer) {
            match string_from_utf8(vstd::slice::slice_to_vec(buffer)) {
                Some(text) => Some(String(text)),
                None => None,
            }
        } else {
            None
        }
    }
}

impl Integer {
    pub fn new<B>(scope: &mut HandleScope<'_, B>, inner: i32) -> (number: Self)
        ensures
            number.0.represents(inner as int),
            *final(scope) == *old(scope),
    {
        Integer(Double::from_i32(inner))
    }

    pub fn new_from_unsigned<B>(scope: &mut HandleScope<'_, B>, inner: u32) -> (number: Self)
        ensures
            number.0.represents(inner as int),
            *final(scope) == *old(scope),
    {
        Integer(Double::from_u32(inner))
    }
}

/// `value` is what native code gets of a call that the backend answered with `result`.
pub open spec fn is_answer(result: Option<Deserialized>, value: Option<Value>) -> bool {
    match (result, value) {
        (None, value) => value is None,
        (Some(result), Some(value)) => reads(result, Ok::<_, DeError>(value)),
        (Some(result), None) => exists|cause: DeError| #[trigger]
            reads(result, Err::<Value, _>(cause)),
    }
}

pub open spec fn handle_value(handle: Option<Local<'_, Value>>) -> Option<Value> {
    match handle {
        Some(handle) => Some(handle.value()),
        None => None,
    }
}

impl Function {
    /// The arguments as they are sent.
    fn serialize_args<B>(scope: &mut HandleScope<'_, B>, args: &[Local<'_, Value>]) -> (serialized:
        Vec<Serialized>)
        ensures
            serialized_views(serialized@) == args@.map_values(
                |arg: Local<'_, Value>| sent(arg.value()@),
            ),
            *final(scope) == *old(scope),
    {
        let mut serialized: Vec<Serialized> = Vec::new();
        let mut i: usize = 0;
        while i < args.len()
            invariant
                i <= args@.len(),
                i == serialized@.len(),
                forall|k: int| 0 <= k < i ==> (#[trigger] serialized@[k])@ == sent(
                    args@[k].value()@,
                ),
                *scope == *old(scope),
            decreases args@.len() - i,
        {
            let value = <SerdeValue as FromV8>::from_v8(scope, args[i].clone()).unwrap();
            serialized.push(to_backend(scope, value).unwrap());
            i = i + 1;
        }
        assert(serialized_views(serialized@) =~= args@.map_values(
            |arg: Local<'_, Value>| sent(arg.value()@),
        ));
        serialized
    }

    /// What native code gets of a call, from what the backend answered.
    pub fn read_answer<'s, B>(
        scope: &mut HandleScope<'s, B>,
        result: Option<Deserialized>,
    ) -> (value: Option<Local<'s, Value>>)
        ensures
            is_answer(result, handle_value(value)),
            *final(scope) == *old(scope),
    {
        match result {
            Some(result) => match from_backend::<B, SerdeValue>(scope, result) {
                Ok(value) => match <Value as TryFrom<SerdeValue>>::try_from(value) {
                    Ok(value) => Local::from_raw(value),
                    Err(_) => None,
                },
                Err(_) => None,
            },
            None => None,
        }
    }
}

impl Function {
    /// Calls the function on an undefined receiver.
    pub fn call<'s, B: JsBackend>(
        &self,
        scope: &mut HandleScope<'s, B>,
        recv: Local<'_, Value>,
        args: &[Local<'_, Value>],
    ) -> (value: Option<Local<'s, Value>>)
        requires
            recv.value() is Undefined,
        ensures
            called(
                *old(scope).isolate,
                *final(scope).isolate,
                (Call {
                    function: *self,
                    args: args@.map_values(|arg: Local<'_, Value>| sent(arg.value()@)),
                }),
            ),
            is_answer(last_answer(*final(scope).isolate), handle_value(value)),
            *final(final(scope).isolate) == *final(old(scope).isolate),
            final(scope).realm_idx == old(scope).realm_idx,
    {
        let serialized = Function::serialize_args(scope, args);
        let result = self.call_with_serialized(scope, recv, serialized);
        Function::read_answer(scope, result)
    }

    /// Calls the function with arguments that are serialized already.
    pub fn call_with_serialized<'s, B: JsBackend>(
        &self,
        scope: &mut HandleScope<'s, B>,
        _recv: Local<'_, Value>,
        args: Vec<Serialized>,
    ) -> (result: Option<Deserialized>)
        ensures
            called(
                *old(scope).isolate,
                *final(scope).isolate,
                (Call { function: *self, args: serialized_views(args@) }),
            ),
            result == last_answer(*final(scope).isolate),
            *final(final(scope).isolate) == *final(old(scope).isolate),
            final(scope).realm_idx == old(scope).realm_idx,
    {
        B::invoke_function(&mut *scope.isolate, self, args)
    }
}

impl Exception {
    pub fn error<'s, B>(scope: &mut HandleScope<'s, B>, message: Local<'_, String>) -> (exception:
        Local<'s, Value>)
        ensures
            exception.value()@ == (ValueView::Exception {
                class: "Error"@,
                message: message.value().0@,
            }),
            *final(scope) == *old(scope),
    {
        let value = Value::Exception {
            class: "Error".to_owned(),
            message: message.get_data().0.clone(),
        };
        Local::from_raw(value).unwrap()
    }

    pub fn type_error<'s, B>(
        scope: &mut HandleScope<'s, B>,
        message: Local<'_, String>,
    ) -> (exception: Local<'s, Value>)
        ensures
            exception.value()@ == (ValueView::Exception {
                class: "TypeError"@,
                message: message.value().0@,
            }),
            *final(scope) == *old(scope),
    {
        let value = Value::Exception {
            class: "TypeError".to_owned(),
            message: message.get_data().0.clone(),
        };
        Local::from_raw(value).unwrap()
    }
}

pub fn undefined<'s, B>(scope: &mut HandleScope<'s, B>) -> (handle: Local<'s, Value>)
    ensures
        handle.value() == Value::Undefined,
        *final(scope) == *old(scope),
{
    Local::from_raw(Value::Undefined).unwrap()
}

/// The conversion failed because the value is of another kind.
pub open spec fn not_convertible<T>(converted: Result<T, Error>) -> bool {
    converted matches Err(error) && error.is_message("cannot convert Value type"@)
}

impl FromSpecImpl<Object> for Value {
    open spec fn obeys_from_spec() -> bool {
        true
    }

    open spec fn from_spec(value: Object) -> Value {
        Value::Object
    }
}

impl From<Object> for Value {
    fn from(value: Object) -> (converted: Value) {
        Value::Object
    }
}

impl TryFromSpecImpl<Value> for Object {
    open spec fn obeys_try_from_spec() -> bool {
        false
    }

    open spec fn try_from_spec(value: Value) -> Result<Self, Error> {
        arbitrary()
    }
}

impl TryFrom<Value> for Object {
    type Error = Error;

    fn try_from(value: Value) -> (converted: Result<Self, Error>)
        ensures
            match value {
                Value::Object => converted == Ok::<_, Error>(Object {}),
                _ => not_convertible(converted),
            },
    {
        match value {
            Value::Object => Ok(Object {}),
            _ => Err(Error::Message("cannot convert Value type".to_owned())),
        }
    }
}

impl<'s> Local<'s, Object> {
    pub fn into_value(&self) -> (handle: Local<'s, Value>)
        ensures
            handle.value() == <Value as FromSpec<Object>>::from_spec(self.value()),
    {
        Local::from_raw(Value::from((**self.get_data()).clone())).unwrap()
    }
}

impl FromSpecImpl<String> for Value {
    open spec fn obeys_from_spec() -> bool {
        true
    }

    open spec fn from_spec(value: String) -> Value {
        Value::String { inner: value.0 }
    }
}

impl From<String> for Value {
    fn from(value: String) -> (converted: Value) {
        Value::String { inner: value.0 }
    }
}

impl TryFromSpecImpl<Value> for String {
    open spec fn obeys_try_from_spec() -> bool {
        false
    }

    open spec fn try_from_spec(value: Value) -> Result<Self, Error> {
        arbitrary()
    }
}

impl TryFrom<Value> for String {
    type Error = Error;

    fn try_from(value: Value) -> (converted: Result<Self, Error>)
        ensures
            match value {
                Value::String { inner } => converted == Ok::<_, Error>(String(inner)),
                _ => not_convertible(converted),
            },
    {
        match value {
            Value::String { inner } => Ok(String(inner)),
            _ => Err(Error::Message("cannot convert Value type".to_owned())),
        }
    }
}

impl<'s> Local<'s, String> {
    pub fn into_value(&self) -> (handle: Local<'s, Value>)
        ensures
            handle.value() == <Value as FromSpec<String>>::from_spec(self.value()),
    {
        Local::from_raw(Value::from((**self.get_data()).clone())).unwrap()
    }
}

impl FromSpecImpl<Boolean> for Value {
    open spec fn obeys_from_spec() -> bool {
        true
    }

    open spec fn from_spec(value: Boolean) -> Value {
        Value::Boolean { inner: value.0 }
    }
}

impl From<Boolean> for Value {
    fn from(value: Boolean) -> (converted: Value) {
        Value::Boolean { inner: value.0 }
    }
}

impl TryFromSpecImpl<Value> for Boolean {
    open spec fn obeys_try_from_spec() -> bool {
        false
    }

    open spec fn try_from_spec(value: Value) -> Result<Self, Error> {
        arbitrary()
    }
}

impl TryFrom<Value> for Boolean {
    type Error = Error;

    fn try_from(value: Value) -> (converted: Result<Self, Error>)
        ensures
            match value {
                Value::Boolean { inner } => converted == Ok::<_, Error>(Boolean(inner)),
                _ => not_convertible(converted),
            },
    {
        match value {
            Value::Boolean { inner } => Ok(Boolean(inner)),
            _ => Err(Error::Message("cannot convert Value type".to_owned())),
        }
    }
}

impl<'s> Local<'s, Boolean> {
    pub fn into_value(&self) -> (handle: Local<'s, Value>)
        ensures
            handle.value() == <Value as FromSpec<Boolean>>::from_spec(self.value()),
    {
        Local::from_raw(Value::from((**self.get_data()).clone())).unwrap()
    }
}

impl FromSpecImpl<Integer> for Value {
    open spec fn obeys_from_spec() -> bool {
        true
    }

    open spec fn from_spec(value: Integer) -> Value {
        Value::Integer { inner: value.0 }
    }
}

impl From<Integer> for Value {
    fn from(value: Integer) -> (converted: Value) {
        Value::Integer { inner: value.0 }
    }
}

impl TryFromSpecImpl<Value> for Integer {
    open spec fn obeys_try_from_spec() -> bool {
        false
    }

    open spec fn try_from_spec(value: Value) -> Result<Self, Error> {
        arbitrary()
    }
}

impl TryFrom<Value> for Integer {
    type Error = Error;

    fn try_from(value: Value) -> (converted: Result<Self, Error>)
        ensures
            match value {
                Value::Integer { inner } => converted == Ok::<_, Error>(Integer(inner)),
                _ => not_convertible(converted),
            },
    {
        match value {
            Value::Integer { inner } => Ok(Integer(inner)),
            _ => Err(Error::Message("cannot convert Value type".to_owned())),
        }
    }
}

impl<'s> Local<'s, Integer> {
    pub fn into_value(&self) -> (handle: Local<'s, Value>)
        ensures
            handle.value() == <Value as FromSpec<Integer>>::from_spec(self.value()),
    {
        Local::from_raw(Value::from((**self.get_data()).clone())).unwrap()
    }
}

impl FromSpecImpl<Exception> for Value {
    open spec fn obeys_from_spec() -> bool {
        true
    }

    open spec fn from_spec(value: Exception) -> Value {
        Value::Exception { class: value.class, message: value.message }
    }
}

impl From<Exception> for Value {
    fn from(value: Exception) -> (converted: Value) {
        Value::Exception { class: value.class, message: value.message }
    }
}

impl TryFromSpecImpl<Value> for Exception {
    open spec fn obeys_try_from_spec() -> bool {
        false
    }

    open spec fn try_from_spec(value: Value) -> Result<Self, Error> {
        arbitrary()
    }
}

impl TryFrom<Value> for Exception {
    type Error = Error;

    fn try_from(value: Value) -> (converted: Result<Self, Error>)
        ensures
            match value {
                Value::Exception { class, message } => converted == Ok::<_, Error>(Exception { class, message }),
                _ => not_convertible(converted),
            },
    {
        match value {
            Value::Exception { class, message } => Ok(Exception { class, message }),
            _ => Err(Error::Message("cannot convert Value type".to_owned())),
        }
    }
}

impl<'s> Local<'s, Exception> {
    pub fn into_value(&self) -> (handle: Local<'s, Value>)
        ensures
            handle.value() == <Value as FromSpec<Exception>>::from_spec(self.value()),
    {
        Local::from_raw(Value::from((**self.get_data()).clone())).unwrap()
    }
}

impl FromSpecImpl<Function> for Value {
    open spec fn obeys_from_spec() -> bool {
        true
    }

    open spec fn from_spec(value: Function) -> Value {
        Value::Function { id: value.0 }
    }
}

impl From<Function> for Value {
    fn from(value: Function) -> (converted: Value) {
        Value::Function { id: value.0 }
    }
}

impl TryFromSpecImpl<Value> for Function {
    open spec fn obeys_try_from_spec() -> bool {
        false
    }

    open spec fn try_from_spec(value: Value) -> Result<Self, Error> {
        arbitrary()
    }
}

impl TryFrom<Value> for Function {
    type Error = Error;

    fn try_from(value: Value) -> (converted: Result<Self, Error>)
        ensures
            match value {
                Value::Function { id } => converted == Ok::<_, Error>(Function(id)),
                Value::Integer { inner } => converted == Ok::<_, Error>(Function(inner.as_i32())),
                _ => not_convertible(converted),
            },
    {
        match value {
            Value::Function { id } => Ok(Function(id)),
            Value::Integer { inner } => Ok(Function(inner.to_i32())),
            _ => Err(Error::Message("cannot convert Value type".to_owned())),
        }
    }
}

impl<'s> Local<'s, Function> {
    pub fn into_value(&self) -> (handle: Local<'s, Value>)
        ensures
            handle.value() == <Value as FromSpec<Function>>::from_spec(self.value()),
    {
        Local::from_raw(Value::from((**self.get_data()).clone())).unwrap()
    }
}

impl FromSpecImpl<Promise> for Value {
    open spec fn obeys_from_spec() -> bool {
        true
    }

    open spec fn from_spec(value: Promise) -> Value {
        Value::Promise { id: value.0 }
    }
}

impl From<Promise> for Value {
    fn from(value: Promise) -> (converted: Value) {
        Value::Promise { id: value.0 }
    }
}

impl TryFromSpecImpl<Value> for Promise {
    open spec fn obeys_try_from_spec() -> bool {
        false
    }

    open spec fn try_from_spec(value: Value) -> Result<Self, Error> {
        arbitrary()
    }
}

impl TryFrom<Value> for Promise {
    type Error = Error;

    fn try_from(value: Value) -> (converted: Result<Self, Error>)
        ensures
            match value {
                Value::Promise { id } => converted == Ok::<_, Error>(Promise(id)),
                Value::Integer { inner } => converted == Ok::<_, Error>(Promise(inner.as_i32())),
                _ => not_convertible(converted),
            },
    {
        match value {
            Value::Promise { id } => Ok(Promise(id)),
            Value::Integer { inner } => Ok(Promise(inner.to_i32())),
            _ => Err(Error::Message("cannot convert Value type".to_owned())),
        }
    }
}

impl<'s> Local<'s, Promise> {
    pub fn into_value(&self) -> (handle: Local<'s, Value>)
        ensures
            handle.value() == <Value as FromSpec<Promise>>::from_spec(self.value()),
    {
        Local::from_raw(Value::from((**self.get_data()).clone())).unwrap()
    }
}

/// Every value that is made a [`Value`] comes back out of it as it was.
pub proof fn conversions_round_trip(
    object: (Object, Result<Object, Error>),
    text: (String, Result<String, Error>),
    flag: (Boolean, Result<Boolean, Error>),
    number: (Integer, Result<Integer, Error>),
    function: (Function, Result<Function, Error>),
    promise: (Promise, Result<Promise, Error>),
    exception: (Exception, Result<Exception, Error>),
)
    requires
        call_ensures(
            <Object as TryFrom<Value>>::try_from,
            (<Value as FromSpec<Object>>::from_spec(object.0),),
            object.1,
        ),
        call_ensures(
            <String as TryFrom<Value>>::try_from,
            (<Value as FromSpec<String>>::from_spec(text.0),),
            text.1,
        ),
        call_ensures(
            <Boolean as TryFrom<Value>>::try_from,
            (<Value as FromSpec<Boolean>>::from_spec(flag.0),),
            flag.1,
        ),
        call_ensures(
            <Integer as TryFrom<Value>>::try_from,
            (<Value as FromSpec<Integer>>::from_spec(number.0),),
            number.1,
        ),
        call_ensures(
            <Function as TryFrom<Value>>::try_from,
            (<Value as FromSpec<Function>>::from_spec(function.0),),
            function.1,
        ),
        call_ensures(
            <Promise as TryFrom<Value>>::try_from,
            (<Value as FromSpec<Promise>>::from_spec(promise.0),),
            promise.1,
        ),
        call_ensures(
            <Exception as TryFrom<Value>>::try_from,
            (<Value as FromSpec<Exception>>::from_spec(exception.0),),
            exception.1,
        ),
    ensures
        object.1 == Ok::<_, Error>(object.0),
        text.1 == Ok::<_, Error>(text.0),
        flag.1 == Ok::<_, Error>(flag.0),
        number.1 == Ok::<_, Error>(number.0),
        function.1 == Ok::<_, Error>(function.0),
        promise.1 == Ok::<_, Error>(promise.0),
        exception.1 == Ok::<_, Error>(exception.0),
{
}

/// A function or a promise that the backend sends as the number of its id is read as itself.
pub proof fn number_names_function_and_promise(
    id: i32,
    number: Double,
    function: Result<Function, Error>,
    promise: Result<Promise, Error>,
)
    requires
        number.represents(id as int),
        call_ensures(
            <Function as TryFrom<Value>>::try_from,
            (Value::Integer { inner: number },),
            function,
        ),
        call_ensures(
            <Promise as TryFrom<Value>>::try_from,
            (Value::Integer { inner: number },),
            promise,
        ),
    ensures
        function == Ok::<_, Error>(Function(id)),
        promise == Ok::<_, Error>(Promise(id)),
{
    crate::double::cast_gives_back(number, id);
}

} // verus!
