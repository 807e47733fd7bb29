//! Values on their way to the backend and back.
use crate::data::{self, ValueView};
use crate::double::{nearest_double, Double};
use crate::error::Error;
use crate::handle::{HandleInternal, Local};
use crate::names::NameMap;
use crate::ops::OpError;
use crate::scope::HandleScope;
use crate::text::{copy_text, same_text};
use vstd::prelude::*;
use vstd::std_specs::convert::TryFromSpecImpl;

verus! {

/// A value in the form in which the backend gets it.
pub enum Serialized {
    Object,
    String(String),
    Boolean(bool),
    Integer(Double),
    Function(i32),
    Promise(i32),
    Null,
    I32(i32),
    Names(NameMap<i32>),
    Error(OpError),
    /// A dictionary with the class and the message of an exception.
    Exception { class: String, message: String },
    /// A value of the embedder's own, by its place in the embedder's table.
    Other(usize),
    /// Bytes, one number each.
    Bytes(Vec<u8>),
    /// A value that came from the backend, which cannot be sent back.
    Unsupported,
}

/// What a [`Serialized`] value says.
pub enum SerializedView {
    Object,
    String(Seq<char>),
    Boolean(bool),
    Integer(Double),
    Function(i32),
    Promise(i32),
    Null,
    I32(i32),
    Names(Map<Seq<char>, i32>),
    Error { class_name: Seq<char>, message: Seq<char> },
    Exception { class: Seq<char>, message: Seq<char> },
    Other(usize),
    Bytes(Seq<u8>),
    Unsupported,
}

impl View for Serialized {
    type V = SerializedView;

    open spec fn view(&self) -> SerializedView {
        match *self {
            Serialized::Object => SerializedView::Object,
            Serialized::String(text) => SerializedView::String(text@),
            Serialized::Boolean(inner) => SerializedView::Boolean(inner),
            Serialized::Integer(number) => SerializedView::Integer(number),
            Serialized::Function(id) => SerializedView::Function(id),
            Serialized::Promise(id) => SerializedView::Promise(id),
            Serialized::Null => SerializedView::Null,
            Serialized::I32(inner) => SerializedView::I32(inner),
            Serialized::Names(names) => SerializedView::Names(names@),
            Serialized::Error(error) => SerializedView::Error {
                class_name: error.class_name@,
                message: error.message@,
            },
            Serialized::Exception { class, message } => SerializedView::Exception {
                class: class@,
                message: message@,
            },
            Serialized::Other(index) => SerializedView::Other(index),
            Serialized::Bytes(bytes) => SerializedView::Bytes(bytes@),
            Serialized::Unsupported => SerializedView::Unsupported,
        }
    }
}

/// A value of the backend's, as it describes itself.
#[derive(Debug)]
pub enum Deserialized {
    Bool(bool),
    I8(i8),
    I16(i16),
    I32(i32),
    I64(i64),
    I128(i128),
    U8(u8),
    U16(u16),
    U32(u32),
    U64(u64),
    U128(u128),
    Float(Double),
    Char(char),
    Str(String),
    Bytes(Vec<u8>),
    /// An optional value that is absent.
    Absent,
    /// An optional value that is present.
    Present,
    Unit,
    NewtypeStruct,
    Sequence,
    /// Keys with, for the keys whose values are asked for, those values, and the error that
    /// ended the reading of keys, if one did.
    Dictionary { entries: Vec<MapEntry>, end: Option<String> },
    Enum,
    /// A value that the embedder reads on its own, by its place in the embedder's table.
    Other(usize),
}

/// A key with its value as an optional string, or the error of reading that.
#[derive(Debug)]
pub struct MapEntry {
    pub key: String,
    pub value: Result<Option<String>, String>,
}

/// What no value can be read from.
#[derive(Clone, Copy, Debug, PartialEq, Eq, Structural)]
pub enum UnexpectedKind {
    Bytes,
    Optional,
    Unit,
    NewtypeStruct,
    Sequence,
    Enum,
    Other,
}

/// Why no value could be read.
#[derive(Debug)]
pub enum DeError {
    Unexpected(UnexpectedKind),
    Custom(String),
    /// The error with which the reading of a dictionary ended.
    Access(String),
}

/// A value that came from the backend, or one that is to be sent there.
pub enum Value {
    FromBackend(data::Value),
    ToBackend(Serialized),
}

pub open spec fn text_of(text: Option<String>) -> Option<Seq<char>> {
    match text {
        Some(text) => Some(text@),
        None => None,
    }
}

/// Whether the value under this key is read.
pub open spec fn is_read(key: Seq<char>) -> bool {
    key == "class"@ || key == "message"@
}

/// The class and the message after the first `count` entries, or the error that came up in
/// reading them. A key that comes again takes the place of the earlier one.
pub open spec fn class_and_message(entries: Seq<MapEntry>, count: nat) -> Result<
    (Option<Seq<char>>, Option<Seq<char>>),
    Seq<char>,
>
    decreases count,
{
    if count == 0 {
        Ok((None, None))
    } else {
        let entry = entries[count - 1];
        match class_and_message(entries, (count - 1) as nat) {
            Err(error) => Err(error),
            Ok((class, message)) => if !is_read(entry.key@) {
                Ok((class, message))
            } else {
                match entry.value {
                    Err(error) => Err(error@),
                    Ok(value) => if entry.key@ == "class"@ {
                        Ok((text_of(value), message))
                    } else {
                        Ok((class, text_of(value)))
                    },
                }
            },
        }
    }
}

/// Why an error came up, as text.
pub open spec fn de_error_text(error: DeError) -> Seq<char> {
    match error {
        DeError::Unexpected(kind) => "invalid type: "@ + unexpected_text(kind)
            + ", expected expecting a boolean, integer, string, or exception"@,
        DeError::Custom(text) => text@,
        DeError::Access(text) => text@,
    }
}

pub open spec fn unexpected_text(kind: UnexpectedKind) -> Seq<char> {
    match kind {
        UnexpectedKind::Bytes => "byte array"@,
        UnexpectedKind::Optional => "Option value"@,
        UnexpectedKind::Unit => "unit value"@,
        UnexpectedKind::NewtypeStruct => "newtype struct"@,
        UnexpectedKind::Sequence => "sequence"@,
        UnexpectedKind::Enum => "enum"@,
        UnexpectedKind::Other => "value of the embedder's"@,
    }
}

/// The integer that a description is of.
pub open spec fn integer_of(input: Deserialized) -> Option<int> {
    match input {
        Deserialized::I8(v) => Some(v as int),
        Deserialized::I16(v) => Some(v as int),
        Deserialized::I32(v) => Some(v as int),
        Deserialized::I64(v) => Some(v as int),
        Deserialized::I128(v) => Some(v as int),
        Deserialized::U8(v) => Some(v as int),
        Deserialized::U16(v) => Some(v as int),
        Deserialized::U32(v) => Some(v as int),
        Deserialized::U64(v) => Some(v as int),
        Deserialized::U128(v) => Some(v as int),
        _ => None,
    }
}

/// What a description that no value can be read from is of.
pub open spec fn unexpected_of(input: Deserialized) -> Option<UnexpectedKind> {
    match input {
        Deserialized::Bytes(_) => Some(UnexpectedKind::Bytes),
        Deserialized::Present => Some(UnexpectedKind::Optional),
        Deserialized::Unit => Some(UnexpectedKind::Unit),
        Deserialized::NewtypeStruct => Some(UnexpectedKind::NewtypeStruct),
        Deserialized::Sequence => Some(UnexpectedKind::Sequence),
        Deserialized::Enum => Some(UnexpectedKind::Enum),
        Deserialized::Other(_) => Some(UnexpectedKind::Other),
        _ => None,
    }
}

/// `value` is what is read from a dictionary.
pub open spec fn reads_dictionary(
    entries: Seq<MapEntry>,
    end: Option<String>,
    value: Result<data::Value, DeError>,
) -> bool {
    match class_and_message(entries, entries.len()) {
        Err(text) => value matches Err(DeError::Access(error)) && error@ == text,
        Ok((class, message)) => match end {
            Some(text) => value matches Err(DeError::Access(error)) && error@ == text@,
            None => if class is Some && message is Some {
                value matches Ok(value) && value@ == (ValueView::Exception {
                    class: class->0,
                    message: message->0,
                })
            } else {
                value matches Err(DeError::Custom(error)) && error@
                    == "expected Exception { class, message }"@
            },
        },
    }
}

/// `value` is what is read from `input`: booleans, numbers and strings are themselves, nothing is
/// `null`, and a dictionary with a class and a message is an exception.
pub open spec fn reads(input: Deserialized, value: Result<data::Value, DeError>) -> bool {
    match input {
        Deserialized::Bool(inner) => value == Ok::<_, DeError>(data::Value::Boolean { inner }),
        Deserialized::Float(inner) => value == Ok::<_, DeError>(data::Value::Integer { inner }),
        Deserialized::Char(c) => value matches Ok(value) && value@ == ValueView::String(seq![c]),
        Deserialized::Str(text) => value matches Ok(value) && value@ == ValueView::String(text@),
        Deserialized::Absent => value == Ok::<_, DeError>(data::Value::Null),
        Deserialized::Dictionary { entries, end } => reads_dictionary(entries@, end, value),
        _ => match unexpected_of(input) {
            Some(kind) => value == Err::<data::Value, _>(DeError::Unexpected(kind)),
            None => value matches Ok(data::Value::Integer { inner }) && inner.represents(
                nearest_double(integer_of(input)->0),
            ),
        },
    }
}

/// Whether the value under this key is read.
pub fn wants_value(key: &str) -> (wanted: bool)
    ensures
        wanted == is_read(key@),
{
    same_text(key, "class") || same_text(key, "message")
}

fn deserialize_dictionary(entries: &Vec<MapEntry>, end: &Option<String>) -> (value: Result<
    data::Value,
    DeError,
>)
    ensures
        reads_dictionary(entries@, *end, value),
{
    let mut class: Option<String> = None;
    let mut message: Option<String> = None;
    let mut i: usize = 0;
    while i < entries.len()
        invariant
            i <= entries.len(),
            class_and_message(entries@, i as nat) == Ok::<_, Seq<char>>(
                (text_of(class), text_of(message)),
            ),
        decreases entries.len() - i,
    {
        let entry = &entries[i];
        if wants_value(entry.key.as_str()) {
            match &entry.value {
                Err(error) => {
                    proof {
                        lemma_error_stays(entries@, i as nat + 1, entries@.len());
                    }
                    return Err(DeError::Access(error.clone()));
                },
                Ok(value) => {
                    if same_text(entry.key.as_str(), "class") {
                        class = copy_text(value);
                    } else {
                        message = copy_text(value);
                    }
                },
            }
        }
        i = i + 1;
    }
    if let Some(error) = end {
        return Err(DeError::Access(error.clone()));
    }
    match (class, message) {
        (Some(class), Some(message)) => Ok(data::Value::Exception { class, message }),
        _ => Err(DeError::Custom("expected Exception { class, message }".to_owned())),
    }
}

proof fn lemma_error_stays(entries: Seq<MapEntry>, from: nat, to: nat)
    requires
        from <= to,
        class_and_message(entries, from) is Err,
    ensures
        class_and_message(entries, to) == class_and_message(entries, from),
    decreases to,
{
    if from < to {
        lemma_error_stays(entries, from, (to - 1) as nat);
    }
}

impl Value {
    /// The form in which the backend gets the value.
    pub fn serialize(&self) -> (serialized: Result<&Serialized, Error>)
        ensures
            match *self {
                Value::ToBackend(data) => serialized == Ok::<_, Error>(&data),
                Value::FromBackend(_) => serialized matches Err(error) && error.is_message(
                    "serializing a Value::FromBackend is unsupported"@,
                ),
            },
    {
        match self {
            Value::FromBackend(_) => Err(
                Error::Message("serializing a Value::FromBackend is unsupported".to_owned()),
            ),
            Value::ToBackend(data) => Ok(data),
        }
    }

    /// Reads a value of the backend's.
    pub fn deserialize(input: Deserialized) -> (value: Result<Value, DeError>)
        ensures
            match value {
                Ok(value) => value matches Value::FromBackend(data) && reads(
                    input,
                    Ok::<_, DeError>(data),
                ),
                Err(error) => reads(input, Err::<data::Value, _>(error)),
            },
    {
        let number = match input {
            Deserialized::Bool(inner) => {
                return Ok(Value::FromBackend(data::Value::Boolean { inner }));
            },
            Deserialized::I8(v) => Double::from_i128(v as i128),
            Deserialized::I16(v) => Double::from_i128(v as i128),
            Deserialized::I32(v) => Double::from_i128(v as i128),
            Deserialized::I64(v) => Double::from_i128(v as i128),
            Deserialized::I128(v) => Double::from_i128(v),
            Deserialized::U8(v) => Double::from_u128(v as u128),
            Deserialized::U16(v) => Double::from_u128(v as u128),
            Deserialized::U32(v) => Double::from_u128(v as u128),
            Deserialized::U64(v) => Double::from_u128(v as u128),
            Deserialized::U128(v) => Double::from_u128(v),
            Deserialized::Float(number) => number,
            Deserialized::Char(c) => {
                let mut inner = String::new();
                inner.push(c);
                assert(inner@ == seq![c]);
                return Ok(Value::FromBackend(data::Value::String { inner }));
            },
            Deserialized::Str(inner) => {
                return Ok(Value::FromBackend(data::Value::String { inner }));
            },
            Deserialized::Absent => {
                return Ok(Value::FromBackend(data::Value::Null));
            },
            Deserialized::Dictionary { entries, end } => {
                return match deserialize_dictionary(&entries, &end) {
                    Ok(value) => Ok(Value::FromBackend(value)),
                    Err(error) => Err(error),
                };
            },
            Deserialized::Bytes(_) => {
                return Err(DeError::Unexpected(UnexpectedKind::Bytes));
            },
            Deserialized::Present => {
                return Err(DeError::Unexpected(UnexpectedKind::Optional));
            },
            Deserialized::Unit => {
                return Err(DeError::Unexpected(UnexpectedKind::Unit));
            },
            Deserialized::NewtypeStruct => {
                return Err(DeError::Unexpected(UnexpectedKind::NewtypeStruct));
            },
            Deserialized::Sequence => {
                return Err(DeError::Unexpected(UnexpectedKind::Sequence));
            },
            Deserialized::Enum => {
                return Err(DeError::Unexpected(UnexpectedKind::Enum));
            },
            Deserialized::Other(_) => {
                return Err(DeError::Unexpected(UnexpectedKind::Other));
            },
        };
        Ok(Value::FromBackend(data::Value::Integer { inner: number }))
    }
}

/// A value that came from the backend is there to be converted; one that is to be sent to it is
/// not.
pub open spec fn unsent<T>(converted: Result<T, Error>) -> bool {
    converted matches Err(error) && error.is_message(
        "converting a Value::ToBackend to v8 is unsupported"@,
    )
}

impl TryFromSpecImpl<Value> for data::Value {
    open spec fn obeys_try_from_spec() -> bool {
        false
    }

    open spec fn try_from_spec(value: Value) -> Result<Self, Error> {
        arbitrary()
    }
}

impl TryFrom<Value> for data::Value {
    type Error = Error;

    fn try_from(value: Value) -> (converted: Result<Self, Error>)
        ensures
            match value {
                Value::FromBackend(data) => converted == Ok::<_, Error>(data),
                Value::ToBackend(_) => unsent(converted),
            },
    {
        match value {
            Value::FromBackend(data) => Ok(data),
            Value::ToBackend(_) => Err(
                Error::Message("converting a Value::ToBackend to v8 is unsupported".to_owned()),
            ),
        }
    }
}

impl<'s, T: TryFrom<data::Value, Error = Error>> TryFromSpecImpl<Value> for Local<'s, T> {
    open spec fn obeys_try_from_spec() -> bool {
        false
    }

    open spec fn try_from_spec(value: Value) -> Result<Self, Error> {
        arbitrary()
    }
}

impl<'s, T: TryFrom<data::Value, Error = Error>> TryFrom<Value> for Local<'s, T> {
    type Error = Error;

    fn try_from(value: Value) -> (converted: Result<Self, Error>)
        ensures
            match value {
                Value::FromBackend(data) => match converted {
                    Ok(handle) => call_ensures(
                        T::try_from,
                        (data,),
                        Ok::<_, Error>(handle.value()),
                    ),
                    Err(error) => call_ensures(T::try_from, (data,), Err::<T, _>(error)),
                },
                Value::ToBackend(_) => unsent(converted),
            },
    {
        match value {
            Value::FromBackend(data) => match T::try_from(data) {
                Ok(data) => Ok(Local::from_raw(data).unwrap()),
                Err(error) => Err(error),
            },
            Value::ToBackend(_) => Err(
                Error::Message("converting a Value::ToBackend to v8 is unsupported".to_owned()),
            ),
        }
    }
}

/// How a value is sent to the backend.
pub open spec fn sent(value: ValueView) -> SerializedView {
    match value {
        ValueView::Object => SerializedView::Object,
        ValueView::String(text) => SerializedView::String(text),
        ValueView::Boolean(flag) => SerializedView::Boolean(flag),
        ValueView::Integer(number) => SerializedView::Integer(number),
        ValueView::Function(id) => SerializedView::Function(id),
        ValueView::Promise(id) => SerializedView::Promise(id),
        ValueView::Exception { class, message } => SerializedView::Exception { class, message },
        ValueView::Null => SerializedView::Null,
        ValueView::Undefined => SerializedView::Null,
    }
}

/// What can be made of a value of the engine's.
pub trait FromV8: Sized {
    /// The values that something can be made of.
    spec fn accepts(value: data::Value) -> bool;

    /// What is made of a value.
    spec fn is_made_of(value: data::Value, made: Self) -> bool;

    fn from_v8<B>(scope: &mut HandleScope<'_, B>, value: Local<'_, data::Value>) -> (made: Result<
        Self,
        Error,
    >)
        ensures
            match made {
                Ok(made) => Self::accepts(value.value()) && Self::is_made_of(value.value(), made),
                Err(_) => !Self::accepts(value.value()),
            },
            *final(scope) == *old(scope),
    ;
}

impl FromV8 for Value {
    open spec fn accepts(value: data::Value) -> bool {
        true
    }

    open spec fn is_made_of(value: data::Value, made: Self) -> bool {
        made matches Value::ToBackend(data) && data@ == sent(value@)
    }

    fn from_v8<B>(scope: &mut HandleScope<'_, B>, value: Local<'_, data::Value>) -> (made: Result<
        Self,
        Error,
    >) {
        let data = match &**value.get_data() {
            data::Value::Object => Serialized::Object,
            data::Value::String { inner } => Serialized::String(inner.clone()),
            data::Value::Boolean { inner } => Serialized::Boolean(*inner),
            data::Value::Integer { inner } => Serialized::Integer(*inner),
            data::Value::Function { id } => Serialized::Function(*id),
            data::Value::Promise { id } => Serialized::Promise(*id),
            data::Value::Exception { class, message } => Serialized::Exception {
                class: class.clone(),
                message: message.clone(),
            },
            data::Value::Null => Serialized::Null,
            data::Value::Undefined => Serialized::Null,
        };
        Ok(Value::ToBackend(data))
    }
}

/// Makes something of a value, or of what can be made a value.
pub fn from_v8<B, T: FromV8, V: Into<data::Value> + Clone>(
    scope: &mut HandleScope<'_, B>,
    input: Local<'_, V>,
) -> (made: Result<T, Error>)
    ensures
        exists|copy: V, value: data::Value|
            #![trigger call_ensures(V::clone, (&input.value(),), copy), call_ensures(
                <V as Into<data::Value>>::into,
                (copy,),
                value,
            )]
            call_ensures(V::clone, (&input.value(),), copy) && call_ensures(
                <V as Into<data::Value>>::into,
                (copy,),
                value,
            ) && match made {
                Ok(made) => T::accepts(value) && T::is_made_of(value, made),
                Err(_) => !T::accepts(value),
            },
        *final(scope) == *old(scope),
{
    let copy = (**input.get_data()).clone();
    let converted: data::Value = copy.into();
    let handle = Local::from_raw(converted).unwrap();
    T::from_v8(scope, handle)
}

impl DeError {
    /// Why the error came up, as text.
    pub fn to_string(&self) -> (text: String)
        ensures
            text@ == de_error_text(*self),
    {
        match self {
            DeError::Unexpected(kind) => {
                let mut text = "invalid type: ".to_owned();
                text.append(
                    match kind {
                        UnexpectedKind::Bytes => "byte array",
                        UnexpectedKind::Optional => "Option value",
                        UnexpectedKind::Unit => "unit value",
                        UnexpectedKind::NewtypeStruct => "newtype struct",
                        UnexpectedKind::Sequence => "sequence",
                        UnexpectedKind::Enum => "enum",
                        UnexpectedKind::Other => "value of the embedder's",
                    },
                );
                text.append(", expected expecting a boolean, integer, string, or exception");
                text
            },
            DeError::Custom(text) => text.clone(),
            DeError::Access(text) => text.clone(),
        }
    }
}

/// What can be read from what the backend sends.
pub trait FromBackend: Sized {
    /// What is read.
    spec fn is_read_from(input: Deserialized, read: Result<Self, Error>) -> bool;

    fn from_backend<B>(scope: &mut HandleScope<'_, B>, value: Deserialized) -> (read: Result<
        Self,
        Error,
    >)
        ensures
            Self::is_read_from(value, read),
            *final(scope) == *old(scope),
    ;
}

impl FromBackend for Value {
    open spec fn is_read_from(input: Deserialized, read: Result<Self, Error>) -> bool {
        match read {
            Ok(value) => value matches Value::FromBackend(data) && reads(
                input,
                Ok::<_, DeError>(data),
            ),
            Err(error) => {
                &&& error matches Error::Context { context, source }
                &&& context@ == "minus_v8: failed to deserialize value"@
                &&& exists|cause: DeError| #[trigger]
                    reads(input, Err::<data::Value, _>(cause)) && source.is_message(
                        de_error_text(cause),
                    )
            },
        }
    }

    fn from_backend<B>(scope: &mut HandleScope<'_, B>, value: Deserialized) -> (read: Result<
        Self,
        Error,
    >) {
        match Value::deserialize(value) {
            Ok(value) => Ok(value),
            Err(cause) => Err(
                Error::Message(cause.to_string()).context(
                    "minus_v8: failed to deserialize value".to_owned(),
                ),
            ),
        }
    }
}

pub fn from_backend<B, T: FromBackend>(scope: &mut HandleScope<'_, B>, input: Deserialized) -> (read:
    Result<T, Error>)
    ensures
        T::is_read_from(input, read),
        *final(scope) == *old(scope),
{
    T::from_backend(scope, input)
}

/// What can be sent to the backend.
pub trait ToBackend: Sized {
    /// The form in which the backend gets the value.
    spec fn sent_form(self) -> SerializedView;

    fn to_backend<B>(self, scope: &mut HandleScope<'_, B>) -> (sent: Result<Serialized, Error>)
        ensures
            sent matches Ok(sent) && sent@ == self.sent_form(),
            *final(scope) == *old(scope),
    ;
}

impl ToBackend for Value {
    open spec fn sent_form(self) -> SerializedView {
        match self {
            Value::FromBackend(_) => SerializedView::Unsupported,
            Value::ToBackend(data) => data@,
        }
    }

    fn to_backend<B>(self, scope: &mut HandleScope<'_, B>) -> (sent: Result<Serialized, Error>) {
        Ok(
            match self {
                Value::FromBackend(_) => Serialized::Unsupported,
                Value::ToBackend(data) => data,
            },
        )
    }
}

pub fn to_backend<B, T: ToBackend>(scope: &mut HandleScope<'_, B>, input: T) -> (sent: Result<
    Serialized,
    Error,
>)
    ensures
        sent matches Ok(sent) && sent@ == input.sent_form(),
        *final(scope) == *old(scope),
{
    input.to_backend(scope)
}

/// Functions, promises, objects and `undefined` are never read from the backend, and an exception
/// is read from nothing but a dictionary.
pub proof fn only_plain_values_are_read(input: Deserialized, value: data::Value)
    requires
        reads(input, Ok::<_, DeError>(value)),
    ensures
        value !is Function,
        value !is Promise,
        value !is Object,
        value !is Undefined,
        value is Exception ==> input is Dictionary,
{
}

/// The key with this text as its value.
pub open spec fn is_entry(entry: MapEntry, key: Seq<char>, text: Seq<char>) -> bool {
    entry.key@ == key && (entry.value matches Ok(Some(value)) && value@ == text)
}

/// `input` describes what was sent as it is.
pub open spec fn describes(sent: SerializedView, input: Deserialized) -> bool {
    match sent {
        SerializedView::String(text) => input matches Deserialized::Str(own) && own@ == text,
        SerializedView::Boolean(flag) => input == Deserialized::Bool(flag),
        SerializedView::Integer(number) => input == Deserialized::Float(number),
        SerializedView::Function(id) => input == Deserialized::I32(id),
        SerializedView::Promise(id) => input == Deserialized::I32(id),
        SerializedView::Null => input == Deserialized::Absent,
        SerializedView::Exception { class, message } => {
            &&& input matches Deserialized::Dictionary { entries, end: None }
            &&& entries@.len() == 2
            &&& is_entry(entries@[0], "class"@, class)
            &&& is_entry(entries@[1], "message"@, message)
        },
        _ => false,
    }
}

/// A string, a boolean, a number, an exception or `null` that is sent to the backend and comes back
/// is what it was. `undefined` comes back as `null`, and a function or a promise as a number, which
/// [`data::number_names_function_and_promise`] makes the function or the promise again.
pub proof fn values_come_back(
    value: data::Value,
    input: Deserialized,
    read: Result<data::Value, DeError>,
)
    requires
        value !is Object,
        describes(sent(value@), input),
        reads(input, read),
    ensures
        read is Ok,
        match value@ {
            ValueView::Undefined => read->Ok_0@ == ValueView::Null,
            ValueView::Function(id) => read->Ok_0 matches data::Value::Integer { inner }
                && inner.represents(id as int),
            ValueView::Promise(id) => read->Ok_0 matches data::Value::Integer { inner }
                && inner.represents(id as int),
            _ => read->Ok_0@ == value@,
        },
{
    match value@ {
        ValueView::Function(id) => crate::double::lemma_small_is_nearest(id as int),
        ValueView::Promise(id) => crate::double::lemma_small_is_nearest(id as int),
        ValueView::Exception { class, message } => {
            reveal_strlit("class");
            reveal_strlit("message");
            assert("class"@.len() != "message"@.len());
            let entries = input->entries@;
            reveal_with_fuel(class_and_message, 3);
            assert(class_and_message(entries, 2) == Ok::<_, Seq<char>>(
                (Some(class), Some(message)),
            ));
        },
        _ => {},
    }
}

} // verus!
