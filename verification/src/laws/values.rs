//! How values get to the backend and come from it.
use crate::data::{
    Boolean, Exception, Function, Integer, Object, Promise, String as JsString, Value,
};
use crate::double::{nearest_double, represented_once, Double};
use crate::error::Error;
use crate::handle::{Global, HandleInternal, Local};
use crate::isolate::Isolate;
use crate::laws::numbers::{
    are_bits_of, is_rounded, lemma_nearest_is_rounded, represented_integers_are_in_the_bits,
};
use crate::scope::HandleScope;
use crate::serde::{
    class_and_message, from_backend, to_backend, wants_value, DeError, Deserialized, FromV8, MapEntry, Serialized,
    UnexpectedKind, Value as SerdeValue,
};
use crate::wrappers::{shared_bytes, ByteString, StringOrBuffer, ZeroCopyBuf};
use vstd::prelude::*;
use std::ops::Deref;
use vstd::std_specs::cmp::PartialEqSpec;
use vstd::std_specs::convert::FromSpec;
use vstd::utf8::{encode_utf8, valid_utf8};

verus! {

/// The backend describes this integer, in any width.
pub open spec fn describes_integer(input: Deserialized, v: int) -> bool {
    match input {
        Deserialized::I8(inner) => inner == v,
        Deserialized::I16(inner) => inner == v,
        Deserialized::I32(inner) => inner == v,
        Deserialized::I64(inner) => inner == v,
        Deserialized::I128(inner) => inner == v,
        Deserialized::U8(inner) => inner == v,
        Deserialized::U16(inner) => inner == v,
        Deserialized::U32(inner) => inner == v,
        Deserialized::U64(inner) => inner == v,
        Deserialized::U128(inner) => inner == v,
        _ => false,
    }
}

/// This number was read.
pub open spec fn is_number(read: Result<SerdeValue, DeError>, number: Double) -> bool {
    read == Ok::<_, DeError>(SerdeValue::FromBackend(Value::Integer { inner: number }))
}

/// An integer of any width is read as itself, with its sign, where it has at most 53 bits, and as
/// the number nearest to it otherwise.
pub proof fn integers_are_read_as_themselves(
    input: Deserialized,
    v: int,
    read: Result<SerdeValue, DeError>,
)
    requires
        describes_integer(input, v),
        call_ensures(SerdeValue::deserialize, (input,), read),
    ensures
        exists|number: Double, r: int|
            is_number(read, number) && is_rounded(v, r) && are_bits_of(number.bits, r),
        -0x20_0000_0000_0000 <= v <= 0x20_0000_0000_0000 ==> exists|number: Double| #[trigger]
            is_number(read, number) && are_bits_of(number.bits, v),
{
    let number = read->Ok_0->FromBackend_0->Integer_inner;
    lemma_nearest_is_rounded(v);
    let r = nearest_double(v);
    represented_integers_are_in_the_bits(number, r);
    assert(is_number(read, number) && is_rounded(v, r) && are_bits_of(number.bits, r));
}

/// The width in which the backend describes an integer does not matter.
pub proof fn widths_do_not_matter(
    input: Deserialized,
    other: Deserialized,
    v: int,
    read: Result<SerdeValue, DeError>,
    other_read: Result<SerdeValue, DeError>,
)
    requires
        describes_integer(input, v),
        describes_integer(other, v),
        call_ensures(SerdeValue::deserialize, (input,), read),
        call_ensures(SerdeValue::deserialize, (other,), other_read),
    ensures
        read is Ok,
        other_read == read,
{
    let number = read->Ok_0->FromBackend_0->Integer_inner;
    let other_number = other_read->Ok_0->FromBackend_0->Integer_inner;
    represented_once(number, other_number, nearest_double(v));
}

/// Booleans, strings and numbers are read as what they are, nothing is read as `null`, and what
/// cannot be read is refused for what it is.
pub proof fn plain_values_are_read_as_themselves(
    input: Deserialized,
    read: Result<SerdeValue, DeError>,
)
    requires
        call_ensures(SerdeValue::deserialize, (input,), read),
    ensures
        match input {
            Deserialized::Bool(flag) => read matches Ok(SerdeValue::FromBackend(
                Value::Boolean { inner },
            )) && inner == flag,
            Deserialized::Float(number) => is_number(read, number),
            Deserialized::Str(text) => read matches Ok(SerdeValue::FromBackend(
                Value::String { inner },
            )) && inner@ == text@,
            Deserialized::Char(c) => read matches Ok(SerdeValue::FromBackend(
                Value::String { inner },
            )) && inner@.len() == 1 && inner@[0] == c,
            Deserialized::Absent => read == Ok::<_, DeError>(SerdeValue::FromBackend(Value::Null)),
            Deserialized::Present => read == Err::<SerdeValue, _>(
                DeError::Unexpected(UnexpectedKind::Optional),
            ),
            Deserialized::Bytes(_) => read == Err::<SerdeValue, _>(
                DeError::Unexpected(UnexpectedKind::Bytes),
            ),
            Deserialized::Unit => read == Err::<SerdeValue, _>(
                DeError::Unexpected(UnexpectedKind::Unit),
            ),
            Deserialized::NewtypeStruct => read == Err::<SerdeValue, _>(
                DeError::Unexpected(UnexpectedKind::NewtypeStruct),
            ),
            Deserialized::Sequence => read == Err::<SerdeValue, _>(
                DeError::Unexpected(UnexpectedKind::Sequence),
            ),
            Deserialized::Enum => read == Err::<SerdeValue, _>(
                DeError::Unexpected(UnexpectedKind::Enum),
            ),
            Deserialized::Other(_) => read == Err::<SerdeValue, _>(
                DeError::Unexpected(UnexpectedKind::Other),
            ),
            Deserialized::Dictionary { .. } => read is Err || (read matches Ok(
                SerdeValue::FromBackend(value),
            ) && value is Exception),
            _ => true,
        },
{
    match input {
        Deserialized::Char(c) => {
            assert(seq![c].len() == 1 && seq![c][0] == c);
        },
        _ => {},
    }
}

/// This entry is the last with this key.
pub open spec fn is_last_of(entries: Seq<MapEntry>, key: Seq<char>, i: int) -> bool {
    &&& 0 <= i < entries.len()
    &&& entries[i].key@ == key
    &&& forall|j: int| i < j < entries.len() ==> (#[trigger] entries[j]).key@ != key
}

/// No value that is read from these entries is an error.
pub open spec fn are_readable(entries: Seq<MapEntry>, count: int) -> bool {
    forall|i: int|
        0 <= i < count && ((#[trigger] entries[i]).key@ == "class"@ || entries[i].key@
            == "message"@) ==> entries[i].value is Ok
}

proof fn lemma_keys_differ()
    ensures
        "class"@ != "message"@,
{
    reveal_strlit("class");
    reveal_strlit("message");
    assert("class"@.len() != "message"@.len());
}

/// What the last of the first entries with a key says.
pub open spec fn says(
    entries: Seq<MapEntry>,
    count: int,
    key: Seq<char>,
    text: Option<Seq<char>>,
) -> bool {
    match text {
        Some(text) => exists|i: int|
            0 <= i < count && (#[trigger] entries[i]).key@ == key && (entries[i].value matches Ok(
                Some(own),
            ) && own@ == text) && forall|j: int|
                i < j < count ==> (#[trigger] entries[j]).key@ != key,
        None => (forall|j: int| 0 <= j < count ==> (#[trigger] entries[j]).key@ != key) || exists|
            i: int,
        |
            0 <= i < count && (#[trigger] entries[i]).key@ == key && entries[i].value == Ok::<
                Option<String>,
                String,
            >(None) && forall|j: int| i < j < count ==> (#[trigger] entries[j]).key@ != key,
    }
}

proof fn lemma_says_more(
    entries: Seq<MapEntry>,
    count: int,
    key: Seq<char>,
    text: Option<Seq<char>>,
)
    requires
        0 <= count < entries.len(),
        entries[count].key@ != key,
        says(entries, count, key, text),
    ensures
        says(entries, count + 1, key, text),
{
    match text {
        Some(own_text) => {
            let i = choose|i: int|
                0 <= i < count && (#[trigger] entries[i]).key@ == key && (
                entries[i].value matches Ok(Some(own)) && own@ == own_text) && forall|j: int|
                    i < j < count ==> (#[trigger] entries[j]).key@ != key;
            assert(entries[i].key@ == key);
        },
        None => {
            if !(forall|j: int| 0 <= j < count ==> (#[trigger] entries[j]).key@ != key) {
                let i = choose|i: int|
                    0 <= i < count && (#[trigger] entries[i]).key@ == key && entries[i].value
                        == Ok::<Option<String>, String>(None) && forall|j: int|
                        i < j < count ==> (#[trigger] entries[j]).key@ != key;
                assert(entries[i].key@ == key);
            }
        },
    }
}

proof fn lemma_class_and_message(entries: Seq<MapEntry>, count: nat)
    requires
        count <= entries.len(),
        are_readable(entries, count as int),
    ensures
        class_and_message(entries, count) matches Ok((class, message)) && says(
            entries,
            count as int,
            "class"@,
            class,
        ) && says(entries, count as int, "message"@, message),
    decreases count,
{
    lemma_keys_differ();
    if count > 0 {
        let last = count - 1;
        lemma_class_and_message(entries, last as nat);
        let (class, message) = class_and_message(entries, last as nat)->Ok_0;
        let entry = entries[last];
        if entry.key@ == "class"@ {
            assert(entry.value is Ok);
            lemma_says_more(entries, last, "message"@, message);
            assert(entries[last].key@ == "class"@);
        } else if entry.key@ == "message"@ {
            assert(entry.value is Ok);
            lemma_says_more(entries, last, "class"@, class);
            assert(entries[last].key@ == "message"@);
        } else {
            lemma_says_more(entries, last, "class"@, class);
            lemma_says_more(entries, last, "message"@, message);
        }
    }
}

/// A dictionary that can be read to its end is an exception where both a class and a message are in
/// it, of which the last ones count, and nothing at all otherwise. Other keys do not matter.
pub proof fn dictionaries_are_exceptions(
    entries: Vec<MapEntry>,
    read: Result<SerdeValue, DeError>,
    class_at: int,
    message_at: int,
)
    requires
        call_ensures(
            SerdeValue::deserialize,
            (Deserialized::Dictionary { entries, end: None },),
            read,
        ),
        are_readable(entries@, entries@.len() as int),
        is_last_of(entries@, "class"@, class_at),
        is_last_of(entries@, "message"@, message_at),
    ensures
        match (entries@[class_at].value->Ok_0, entries@[message_at].value->Ok_0) {
            (Some(own_class), Some(own_message)) => read matches Ok(SerdeValue::FromBackend(
                Value::Exception { class, message },
            )) && class@ == own_class@ && message@ == own_message@,
            _ => read matches Err(DeError::Custom(text)) && text@
                == "expected Exception { class, message }"@,
        },
{
    lemma_class_and_message(entries@, entries@.len());
    let (class, message) = class_and_message(entries@, entries@.len())->Ok_0;
    lemma_last_says(entries@, "class"@, class, class_at);
    lemma_last_says(entries@, "message"@, message, message_at);
}

proof fn lemma_last_says(
    entries: Seq<MapEntry>,
    key: Seq<char>,
    text: Option<Seq<char>>,
    at: int,
)
    requires
        is_last_of(entries, key, at),
        entries[at].value is Ok,
        says(entries, entries.len() as int, key, text),
    ensures
        match entries[at].value->Ok_0 {
            Some(own) => text == Some(own@),
            None => text is None,
        },
{
    match text {
        Some(own_text) => {
            let i = choose|i: int|
                0 <= i < entries.len() && (#[trigger] entries[i]).key@ == key && (
                entries[i].value matches Ok(Some(own)) && own@ == own_text) && forall|j: int|
                    i < j < entries.len() ==> (#[trigger] entries[j]).key@ != key;
            if i < at {
                assert(entries[at].key@ != key);
            } else if at < i {
                assert(entries[i].key@ != key);
            }
        },
        None => {
            assert(entries[at].key@ == key);
            let i = choose|i: int|
                0 <= i < entries.len() && (#[trigger] entries[i]).key@ == key && entries[i].value
                    == Ok::<Option<String>, String>(None) && forall|j: int|
                    i < j < entries.len() ==> (#[trigger] entries[j]).key@ != key;
            if i < at {
                assert(entries[at].key@ != key);
            } else if at < i {
                assert(entries[i].key@ != key);
            }
        },
    }
}

/// A dictionary without a class, or without a message, is nothing that can be read.
pub proof fn exceptions_need_both_keys(
    entries: Vec<MapEntry>,
    read: Result<SerdeValue, DeError>,
    key: Seq<char>,
)
    requires
        call_ensures(
            SerdeValue::deserialize,
            (Deserialized::Dictionary { entries, end: None },),
            read,
        ),
        are_readable(entries@, entries@.len() as int),
        key == "class"@ || key == "message"@,
        forall|i: int| 0 <= i < entries@.len() ==> (#[trigger] entries@[i]).key@ != key,
    ensures
        read matches Err(DeError::Custom(text)) && text@ == "expected Exception { class, message }"@,
{
    lemma_class_and_message(entries@, entries@.len());
    let (class, message) = class_and_message(entries@, entries@.len())->Ok_0;
    if key == "class"@ {
        assert(class is None);
    } else {
        assert(message is None);
    }
}

/// The first error that comes up in reading a dictionary is the one that is told.
pub proof fn first_error_is_told(
    entries: Vec<MapEntry>,
    end: Option<String>,
    read: Result<SerdeValue, DeError>,
    at: int,
)
    requires
        call_ensures(SerdeValue::deserialize, (Deserialized::Dictionary { entries, end },), read),
        0 <= at <= entries@.len(),
        are_readable(entries@, at),
        at < entries@.len() ==> entries@[at].value is Err && (entries@[at].key@ == "class"@
            || entries@[at].key@ == "message"@),
        at == entries@.len() ==> end is Some,
    ensures
        read matches Err(DeError::Access(text)) && text@ == if at < entries@.len() {
            entries@[at].value->Err_0@
        } else {
            end->0@
        },
{
    lemma_class_and_message(entries@, at as nat);
    if at < entries@.len() {
        lemma_error_is_kept(entries@, at as nat, entries@.len());
    }
}

proof fn lemma_error_is_kept(entries: Seq<MapEntry>, at: nat, count: nat)
    requires
        at < count <= entries.len(),
        class_and_message(entries, at) is Ok,
        entries[at as int].value is Err,
        entries[at as int].key@ == "class"@ || entries[at as int].key@ == "message"@,
    ensures
        class_and_message(entries, count) == Err::<
            (Option<Seq<char>>, Option<Seq<char>>),
            Seq<char>,
        >(entries[at as int].value->Err_0@),
    decreases count,
{
    if at < count - 1 {
        lemma_error_is_kept(entries, at, (count - 1) as nat);
    }
}

/// The form in which a value is sent holds the value itself.
pub open spec fn holds(form: Serialized, value: Value) -> bool {
    match value {
        Value::Object => form is Object,
        Value::String { inner } => form matches Serialized::String(text) && text@ == inner@,
        Value::Boolean { inner } => form matches Serialized::Boolean(flag) && flag == inner,
        Value::Integer { inner } => form matches Serialized::Integer(number) && number.bits
            == inner.bits,
        Value::Function { id } => form matches Serialized::Function(own) && own == id,
        Value::Promise { id } => form matches Serialized::Promise(own) && own == id,
        Value::Exception { class, message } => form matches Serialized::Exception {
            class: own_class,
            message: own_message,
        } && own_class@ == class@ && own_message@ == message@,
        Value::Null => form is Null,
        Value::Undefined => form is Null,
    }
}

/// Every value can be sent, in a form that holds it, and that form is what the backend gets. What
/// came from the backend is not sent back.
pub proof fn values_are_sent_as_themselves<'s, B>(
    scope: &mut HandleScope<'s, B>,
    value: Local<'s, Value>,
    made: Result<SerdeValue, Error>,
    sending: &mut HandleScope<'s, B>,
    sent: Result<Serialized, Error>,
)
    requires
        call_ensures(<SerdeValue as FromV8>::from_v8::<B>, (scope, value), made),
        call_ensures(to_backend::<B, SerdeValue>, (sending, made->Ok_0), sent),
    ensures
        made matches Ok(SerdeValue::ToBackend(form)) && holds(form, value.value()),
        sent matches Ok(form) && holds(form, value.value()),
{
}

/// A kind of value is converted to the value that holds it, and nothing but such a value is
/// converted back.
pub proof fn conversions_keep_what_is_held(
    flag: bool,
    number: Double,
    id: i32,
    text: String,
    class: String,
)
    ensures
        <Value as FromSpec<Object>>::from_spec(Object {  }) == Value::Object,
        <Value as FromSpec<Boolean>>::from_spec(Boolean(flag)) == (Value::Boolean { inner: flag }),
        <Value as FromSpec<Integer>>::from_spec(Integer(number)) == (Value::Integer {
            inner: number,
        }),
        <Value as FromSpec<Function>>::from_spec(Function(id)) == (Value::Function { id }),
        <Value as FromSpec<Promise>>::from_spec(Promise(id)) == (Value::Promise { id }),
        <Value as FromSpec<JsString>>::from_spec(JsString(text)) == (Value::String {
            inner: text,
        }),
        <Value as FromSpec<Exception>>::from_spec(Exception { class, message: text }) == (
        Value::Exception { class, message: text }),
{
}

/// A value is converted to what it is, and to nothing else. A number may stand for a function or a
/// promise.
pub proof fn values_convert_to_what_they_are(
    value: Value,
    object: Result<Object, Error>,
    text: Result<JsString, Error>,
    flag: Result<Boolean, Error>,
    number: Result<Integer, Error>,
    function: Result<Function, Error>,
    promise: Result<Promise, Error>,
    exception: Result<Exception, Error>,
)
    requires
        call_ensures(<Object as TryFrom<Value>>::try_from, (value,), object),
        call_ensures(<JsString as TryFrom<Value>>::try_from, (value,), text),
        call_ensures(<Boolean as TryFrom<Value>>::try_from, (value,), flag),
        call_ensures(<Integer as TryFrom<Value>>::try_from, (value,), number),
        call_ensures(<Function as TryFrom<Value>>::try_from, (value,), function),
        call_ensures(<Promise as TryFrom<Value>>::try_from, (value,), promise),
        call_ensures(<Exception as TryFrom<Value>>::try_from, (value,), exception),
    ensures
        object is Ok <==> value is Object,
        text is Ok <==> value is String,
        flag is Ok <==> value is Boolean,
        number is Ok <==> value is Integer,
        function is Ok <==> value is Function || value is Integer,
        promise is Ok <==> value is Promise || value is Integer,
        exception is Ok <==> value is Exception,
        value matches Value::Boolean { inner } ==> flag->Ok_0.0 == inner,
        value matches Value::Integer { inner } ==> number->Ok_0.0 == inner,
        value matches Value::String { inner } ==> text->Ok_0.0@ == inner@,
        value matches Value::Function { id } ==> function->Ok_0.0 == id,
        value matches Value::Promise { id } ==> promise->Ok_0.0 == id,
        value matches Value::Exception { class, message } ==> exception->Ok_0.class@ == class@
            && exception->Ok_0.message@ == message@,
{
}

/// What a value is told to be is what it is.
pub proof fn kinds_are_told(value: Value, undefined: bool, nothing: bool, yes: bool, copy: Value)
    requires
        call_ensures(Value::is_undefined, (&value,), undefined),
        call_ensures(Value::is_null_or_undefined, (&value,), nothing),
        call_ensures(Value::is_true, (&value,), yes),
        call_ensures(Value::clone, (&value,), copy),
    ensures
        undefined <==> value is Undefined,
        nothing <==> value is Undefined || value is Null,
        yes <==> value == (Value::Boolean { inner: true }),
        copy == value,
{
}

/// A string is made of text up to the limit of its length, and holds that text.
pub proof fn strings_hold_their_text<'s, B>(
    scope: &mut HandleScope<'s, B>,
    text: &str,
    handle: Option<Local<'s, JsString>>,
)
    requires
        call_ensures(JsString::new::<B>, (scope, text), handle),
    ensures
        handle is Some ==> handle->0.value().0@ == text@,
        encode_utf8(text@).len() <= 268_435_440 ==> handle is Some,
        encode_utf8(text@).len() > 536_870_888 ==> handle is None,
        usize::BITS != 32 && encode_utf8(text@).len() <= 536_870_888 ==> handle is Some,
{
}

/// Errors have the class that they are made for and the message that they are made with.
pub proof fn exceptions_hold_their_message<'s, B>(
    scope: &mut HandleScope<'s, B>,
    other: &mut HandleScope<'s, B>,
    message: Local<'s, JsString>,
    error: Local<'s, Value>,
    type_error: Local<'s, Value>,
)
    requires
        call_ensures(Exception::error::<B>, (scope, message), error),
        call_ensures(Exception::type_error::<B>, (other, message), type_error),
    ensures
        error.value() matches Value::Exception { class, message: own } && class@ == "Error"@
            && own@ == message.value().0@,
        type_error.value() matches Value::Exception { class, message: own } && class@
            == "TypeError"@ && own@ == message.value().0@,
{
}

/// An error that came up in reading says what came instead of a value, or what it says itself.
pub proof fn reading_errors_say_why(error: DeError, text: String)
    requires
        call_ensures(DeError::to_string, (&error,), text),
    ensures
        match error {
            DeError::Custom(own) => text@ == own@,
            DeError::Access(own) => text@ == own@,
            DeError::Unexpected(kind) => exists|came: Seq<char>|
                text@ == "invalid type: "@ + came
                    + ", expected expecting a boolean, integer, string, or exception"@ && match kind {
                    UnexpectedKind::Bytes => came == "byte array"@,
                    UnexpectedKind::Optional => came == "Option value"@,
                    UnexpectedKind::Unit => came == "unit value"@,
                    UnexpectedKind::NewtypeStruct => came == "newtype struct"@,
                    UnexpectedKind::Sequence => came == "sequence"@,
                    UnexpectedKind::Enum => came == "enum"@,
                    UnexpectedKind::Other => came == "value of the embedder's"@,
                },
        },
{
    if let DeError::Unexpected(kind) = error {
        let came = crate::serde::unexpected_text(kind);
        assert(text@ == "invalid type: "@ + came
            + ", expected expecting a boolean, integer, string, or exception"@);
    }
}

/// A byte string is made of exactly those strings that have no character above U+00FF, keeps their
/// bytes, and sends them back as they came.
pub proof fn byte_strings_keep_latin1(
    text: String,
    received: Result<ByteString, DeError>,
    bytes: Vec<u8>,
)
    requires
        call_ensures(ByteString::deserialize, (text,), received),
        received is Ok ==> call_ensures(ByteString::into_vec, (received->Ok_0,), bytes),
    ensures
        received is Ok <==> forall|i: int|
            0 <= i < text@.len() ==> (#[trigger] text@[i]) as u32 <= 0xff,
        received is Ok ==> bytes@ == encode_utf8(text@),
        received matches Err(error) ==> error matches DeError::Custom(message) && message@
            == "minus_v8: ExpectedLatin1"@,
{
}

/// A buffer gives back the bytes that it was made of, however it was made.
pub proof fn buffers_keep_their_bytes(
    bytes: Vec<u8>,
    buffer: ZeroCopyBuf,
    back: Vec<u8>,
    form: Serialized,
    copy: ZeroCopyBuf,
    empty: ZeroCopyBuf,
    default: ZeroCopyBuf,
)
    requires
        call_ensures(ZeroCopyBuf::new_temp, (bytes,), buffer),
        call_ensures(ZeroCopyBuf::to_temp, (buffer,), back),
        call_ensures(ZeroCopyBuf::serialize, (&buffer,), form),
        call_ensures(ZeroCopyBuf::clone, (&buffer,), copy),
        call_ensures(ZeroCopyBuf::empty, (), empty),
        call_ensures(ZeroCopyBuf::default, (), default),
    ensures
        back@ == bytes@,
        form matches Serialized::Bytes(own) && own@ == bytes@,
        copy.0@ == bytes@,
        empty.0@.len() == 0,
        default.0@.len() == 0,
        <ZeroCopyBuf as FromSpec<Vec<u8>>>::from_spec(bytes).0 == bytes,
        <ByteString as FromSpec<Vec<u8>>>::from_spec(bytes).0 == bytes,
{
}

/// A string or a buffer is read as what it is and sent as what it is. Anything else is handed back.
pub proof fn strings_or_buffers_keep_what_they_hold(
    input: Deserialized,
    read: Result<StringOrBuffer, Deserialized>,
    form: Serialized,
)
    requires
        call_ensures(StringOrBuffer::deserialize, (input,), read),
        read is Ok ==> call_ensures(StringOrBuffer::serialize, (&read->Ok_0,), form),
    ensures
        match input {
            Deserialized::Str(text) => read is Ok && (form matches Serialized::String(own) && own@
                == text@) && read->Ok_0.bytes() == encode_utf8(text@),
            Deserialized::Char(c) => read is Ok && (form matches Serialized::String(own) && own@
                == seq![c]) && read->Ok_0.bytes() == encode_utf8(seq![c]),
            Deserialized::Bytes(bytes) => read is Ok && (form matches Serialized::Bytes(own)
                && own@ == bytes@) && read->Ok_0.bytes() == bytes@,
            _ => read == Err::<StringOrBuffer, _>(input),
        },
{
}

/// Strings are limited by their bytes, and are made of those that are UTF-8.
pub proof fn strings_are_made_of_utf8<'s, B>(
    scope: &mut HandleScope<'s, B>,
    buffer: &[u8],
    text: Option<JsString>,
    fits: bool,
)
    requires
        call_ensures(JsString::new_from_utf8::<B>, (scope, buffer), text),
        call_ensures(JsString::check_len, (buffer,), fits),
    ensures
        text matches Some(text) ==> encode_utf8(text.0@) == buffer@,
        text is Some ==> fits,
        fits && valid_utf8(buffer@) ==> text is Some,
        buffer@.len() <= 268_435_440 ==> fits,
        buffer@.len() > 536_870_888 ==> !fits,
{
    if valid_utf8(buffer@) {
        vstd::utf8::decode_utf8_encode_utf8(buffer@);
    }
}

/// Numbers are made of integers with 32 bits as they are.
pub proof fn integers_are_made_as_they_are<'s, B>(
    scope: &mut HandleScope<'s, B>,
    signed: i32,
    from_signed: Integer,
    unsigned: u32,
    from_unsigned: Integer,
)
    requires
        call_ensures(Integer::new::<B>, (scope, signed), from_signed),
        call_ensures(Integer::new_from_unsigned::<B>, (scope, unsigned), from_unsigned),
    ensures
        are_bits_of(from_signed.0.bits, signed as int),
        are_bits_of(from_unsigned.0.bits, unsigned as int),
{
    represented_integers_are_in_the_bits(from_signed.0, signed as int);
    represented_integers_are_in_the_bits(from_unsigned.0, unsigned as int);
}

/// A handle on one kind of value is made one on the value that holds it.
pub proof fn handles_convert_to_values<'s>(
    flag: Local<'s, Boolean>,
    flag_value: Local<'s, Value>,
    number: Local<'s, Integer>,
    number_value: Local<'s, Value>,
    text: Local<'s, JsString>,
    text_value: Local<'s, Value>,
    function: Local<'s, Function>,
    function_value: Local<'s, Value>,
    promise: Local<'s, Promise>,
    promise_value: Local<'s, Value>,
    exception: Local<'s, Exception>,
    exception_value: Local<'s, Value>,
    object: Local<'s, Object>,
    object_value: Local<'s, Value>,
)
    requires
        call_ensures(Local::<'s, Boolean>::into_value, (&flag,), flag_value),
        call_ensures(Local::<'s, Integer>::into_value, (&number,), number_value),
        call_ensures(Local::<'s, JsString>::into_value, (&text,), text_value),
        call_ensures(Local::<'s, Function>::into_value, (&function,), function_value),
        call_ensures(Local::<'s, Promise>::into_value, (&promise,), promise_value),
        call_ensures(Local::<'s, Exception>::into_value, (&exception,), exception_value),
        call_ensures(Local::<'s, Object>::into_value, (&object,), object_value),
    ensures
        flag_value.value() == (Value::Boolean { inner: flag.value().0 }),
        number_value.value() == (Value::Integer { inner: number.value().0 }),
        text_value.value() == (Value::String { inner: text.value().0 }),
        function_value.value() == (Value::Function { id: function.value().0 }),
        promise_value.value() == (Value::Promise { id: promise.value().0 }),
        exception_value.value() == (Value::Exception {
            class: exception.value().class,
            message: exception.value().message,
        }),
        object_value.value() is Object,
{
}

/// The value under a key of a dictionary is read where the key is one of an exception's.
pub proof fn only_keys_of_exceptions_are_read(key: &str, wanted: bool)
    requires
        call_ensures(wants_value, (key,), wanted),
    ensures
        wanted <==> key@ == "class"@ || key@ == "message"@,
{
}

/// What cannot be read from the backend is an error with a note, under which the reason stands. What
/// can be read is read as it is described.
pub proof fn unreadable_values_are_noted<'s, B>(
    scope: &mut HandleScope<'s, B>,
    input: Deserialized,
    read: Result<SerdeValue, Error>,
)
    requires
        call_ensures(from_backend::<B, SerdeValue>, (scope, input), read),
    ensures
        input matches Deserialized::Bool(flag) ==> (read matches Ok(SerdeValue::FromBackend(
            Value::Boolean { inner },
        )) && inner == flag),
        input matches Deserialized::Str(text) ==> (read matches Ok(SerdeValue::FromBackend(
            Value::String { inner },
        )) && inner@ == text@),
        input is Absent ==> read == Ok::<_, Error>(SerdeValue::FromBackend(Value::Null)),
        input is Unit || input is Sequence || input is Enum || input is Bytes || input is Present
            || input is NewtypeStruct || input is Other ==> read is Err,
        read matches Err(error) ==> (error matches Error::Context { context, source } && context@
            == "minus_v8: failed to deserialize value"@ && (*source) is Message),
{
}

/// A value that is to be sent is what is sent, and one that came from the backend is not sent back.
/// The other way round, what came from the backend is there to be used, and what is to be sent is
/// not.
pub proof fn values_go_one_way(
    value: SerdeValue,
    serialized: Result<&Serialized, Error>,
    used: Result<Value, Error>,
)
    requires
        call_ensures(SerdeValue::serialize, (&value,), serialized),
        call_ensures(<Value as TryFrom<SerdeValue>>::try_from, (value,), used),
    ensures
        value matches SerdeValue::ToBackend(form) ==> serialized == Ok::<_, Error>(&form),
        value is FromBackend ==> (serialized matches Err(Error::Message(text)) && text@
            == "serializing a Value::FromBackend is unsupported"@),
        value matches SerdeValue::FromBackend(own) ==> used == Ok::<_, Error>(own),
        value is ToBackend ==> (used matches Err(Error::Message(text)) && text@
            == "converting a Value::ToBackend to v8 is unsupported"@),
{
}

/// Handles stand for the values that they are made of, however they are made.
pub proof fn handles_stand_for_their_values<'s, T, B>(
    isolate: &mut Isolate<B>,
    value: T,
    global: Option<Global<T>>,
    local: Option<Local<'s, T>>,
    from_global: Local<'s, T>,
    from_local: Global<T>,
    copy: Global<T>,
    local_copy: Local<'s, T>,
)
    requires
        call_ensures(Global::<T>::from_raw::<B>, (isolate, value), global),
        call_ensures(Local::<'s, T>::from_raw, (value,), local),
        call_ensures(Local::<'s, T>::new::<B, Global<T>>, (isolate, global->0), from_global),
        call_ensures(Global::<T>::new::<B, Local<'s, T>>, (isolate, local->0), from_local),
        call_ensures(Global::<T>::clone, (&global->0,), copy),
        call_ensures(Local::<'s, T>::clone, (&local->0,), local_copy),
    ensures
        global is Some && local is Some,
        global->0.value() == value,
        local->0.value() == value,
        from_global.value() == value,
        from_local.value() == value,
        copy.value() == value,
        local_copy.value() == value,
        *final(isolate) == *old(isolate),
{
}

/// Buffers are shared with the bytes that they hold.
pub proof fn shared_buffers_hold_the_same_bytes(
    buffer: ZeroCopyBuf,
    shared: bytes::Bytes,
    either: StringOrBuffer,
    either_shared: bytes::Bytes,
)
    requires
        call_ensures(ZeroCopyBuf::into_bytes, (buffer,), shared),
        call_ensures(StringOrBuffer::into_bytes, (either,), either_shared),
    ensures
        shared_bytes(shared) == buffer.0@,
        match either {
            StringOrBuffer::Buffer(own) => shared_bytes(either_shared) == own.0@,
            StringOrBuffer::String(text) => shared_bytes(either_shared) == encode_utf8(text@),
        },
{
}

/// Handles are equal where their values are, whatever kinds of handles they are.
pub proof fn handles_are_compared_by_value<'s, T: PartialEq>(a: Global<T>, b: Local<'s, T>)
    ensures
        <Global<T> as PartialEqSpec<Local<'s, T>>>::eq_spec(&a, &b) == <T as PartialEqSpec<
            T,
        >>::eq_spec(&a.value(), &b.value()),
        <Local<'s, T> as PartialEqSpec<Global<T>>>::eq_spec(&b, &a) == <T as PartialEqSpec<
            T,
        >>::eq_spec(&b.value(), &a.value()),
{
}

/// What a buffer or a byte string is looked at for are its bytes.
pub proof fn buffers_are_their_bytes(
    text: ByteString,
    text_bytes: &Vec<u8>,
    text_copy: ByteString,
    text_default: ByteString,
    buffer: ZeroCopyBuf,
    bytes: &Vec<u8>,
    either: StringOrBuffer,
    either_bytes: &[u8],
)
    requires
        call_ensures(ByteString::deref, (&text,), text_bytes),
        call_ensures(ByteString::clone, (&text,), text_copy),
        call_ensures(ByteString::default, (), text_default),
        call_ensures(ZeroCopyBuf::deref, (&buffer,), bytes),
        call_ensures(StringOrBuffer::deref, (&either,), either_bytes),
    ensures
        text_bytes@ == text.0@,
        text_copy.0@ == text.0@,
        text_default.0@.len() == 0,
        bytes@ == buffer.0@,
        match either {
            StringOrBuffer::Buffer(own) => either_bytes@ == own.0@,
            StringOrBuffer::String(own) => either_bytes@ == encode_utf8(own@),
        },
{
}

} // verus!
