//! Strings and buffers that native operations take and give.
use crate::serde::{DeError, Deserialized, Serialized, SerializedView};
use crate::text::string_from_utf8;
use bytes::Bytes;
use std::ops::Deref;
use vstd::prelude::*;
use vstd::std_specs::convert::FromSpecImpl;
use vstd::utf8::{decode_utf8, encode_utf8, valid_utf8};

verus! {

/// `encoding_rs::mem::is_utf8_latin1` tells whether bytes are the UTF-8 form of characters up to
/// U+00FF.
#[verifier::external_body]
fn is_utf8_latin1(buffer: &[u8]) -> (latin: bool)
    ensures
        latin == (valid_utf8(buffer@) && is_latin1(decode_utf8(buffer@))),
{
    encoding_rs::mem::is_utf8_latin1(buffer)
}

/// `bytes::Bytes`, a shared buffer.
#[verifier::external_type_specification]
#[verifier::external_body]
pub struct ExBytes(Bytes);

/// The bytes in a shared buffer.
pub uninterp spec fn shared_bytes(buffer: Bytes) -> Seq<u8>;

/// `Bytes::from` a vector makes a shared buffer of the vector's bytes.
#[verifier::external_body]
fn bytes_from_vec(bytes: Vec<u8>) -> (buffer: Bytes)
    ensures
        shared_bytes(buffer) == bytes@,
{
    Bytes::from(bytes)
}

/// Every character is one of Latin-1.
pub open spec fn is_latin1(text: Seq<char>) -> bool {
    forall|i: int| 0 <= i < text.len() ==> (#[trigger] text[i]) as u32 <= 0xff
}

/// A string of Latin-1 characters, in UTF-8.
#[derive(Debug, PartialEq, Eq)]
pub struct ByteString(pub Vec<u8>);

impl Clone for ByteString {
    fn clone(&self) -> (copy: Self)
        ensures
            copy.0@ == self.0@,
    {
        ByteString(vstd::slice::slice_to_vec(self.0.as_slice()))
    }
}

impl Default for ByteString {
    fn default() -> (empty: Self)
        ensures
            empty.0@ == Seq::<u8>::empty(),
    {
        ByteString(Vec::new())
    }
}

impl ByteString {
    /// A byte string that is sent as a string. Its bytes should only ever be UTF-8.
    pub fn serialize(&self) -> (serialized: Serialized)
        requires
            valid_utf8(self.0@),
        ensures
            serialized@ == SerializedView::String(decode_utf8(self.0@)),
    {
        let text = string_from_utf8(vstd::slice::slice_to_vec(self.0.as_slice())).unwrap();
        Serialized::String(text)
    }

    /// Makes a byte string of a string that was received.
    pub fn deserialize(text: String) -> (bytes: Result<ByteString, DeError>)
        ensures
            match bytes {
                Ok(bytes) => is_latin1(text@) && bytes.0@ == encode_utf8(text@),
                Err(error) => {
                    &&& !is_latin1(text@)
                    &&& error matches DeError::Custom(message)
                    &&& message@ == "minus_v8: ExpectedLatin1"@
                },
            },
    {
        proof {
            vstd::utf8::encode_utf8_valid_utf8(text@);
            vstd::utf8::encode_utf8_decode_utf8(text@);
        }
        let bytes = text.as_str().as_bytes();
        if is_utf8_latin1(bytes) {
            Ok(ByteString(vstd::slice::slice_to_vec(bytes)))
        } else {
            Err(DeError::Custom("minus_v8: ExpectedLatin1".to_owned()))
        }
    }

    pub fn into_vec(self) -> (bytes: Vec<u8>)
        ensures
            bytes == self.0,
    {
        self.0
    }
}

/// What was received as a byte string is sent as the string that it was.
pub proof fn byte_string_round_trips(
    text: String,
    received: Result<ByteString, DeError>,
    sent: Serialized,
)
    requires
        is_latin1(text@),
        call_ensures(ByteString::deserialize, (text,), received),
        call_ensures(ByteString::serialize, (&received->Ok_0,), sent),
    ensures
        valid_utf8(received->Ok_0.0@),
        sent@ == SerializedView::String(text@),
{
    vstd::utf8::encode_utf8_valid_utf8(text@);
    vstd::utf8::encode_utf8_decode_utf8(text@);
}

impl FromSpecImpl<Vec<u8>> for ByteString {
    open spec fn obeys_from_spec() -> bool {
        true
    }

    open spec fn from_spec(bytes: Vec<u8>) -> Self {
        ByteString(bytes)
    }
}

impl From<Vec<u8>> for ByteString {
    fn from(bytes: Vec<u8>) -> (wrapped: Self) {
        ByteString(bytes)
    }
}

impl Deref for ByteString {
    type Target = Vec<u8>;

    fn deref(&self) -> (bytes: &Vec<u8>)
        ensures
            *bytes == self.0,
    {
        &self.0
    }
}

/// A buffer that is handed from JavaScript to native code.
#[derive(Debug, PartialEq, Eq)]
pub struct ZeroCopyBuf(pub Vec<u8>);

impl Clone for ZeroCopyBuf {
    fn clone(&self) -> (copy: Self)
        ensures
            copy.0@ == self.0@,
    {
        ZeroCopyBuf(vstd::slice::slice_to_vec(self.0.as_slice()))
    }
}

impl Default for ZeroCopyBuf {
    fn default() -> (empty: Self)
        ensures
            empty.0@ == Seq::<u8>::empty(),
    {
        ZeroCopyBuf(Vec::new())
    }
}

impl ZeroCopyBuf {
    pub fn empty() -> (buffer: Self)
        ensures
            buffer.0@ == Seq::<u8>::empty(),
    {
        ZeroCopyBuf(Vec::new())
    }

    pub fn new_temp(vec: Vec<u8>) -> (buffer: Self)
        ensures
            buffer.0 == vec,
    {
        ZeroCopyBuf(vec)
    }

    pub fn to_temp(self) -> (vec: Vec<u8>)
        ensures
            vec == self.0,
    {
        self.0
    }

    /// The buffer as it is sent.
    pub fn serialize(&self) -> (serialized: Serialized)
        ensures
            serialized@ == SerializedView::Bytes(self.0@),
    {
        Serialized::Bytes(vstd::slice::slice_to_vec(self.0.as_slice()))
    }

    /// The buffer as one that can be shared.
    pub fn into_bytes(self) -> (buffer: Bytes)
        ensures
            shared_bytes(buffer) == self.0@,
    {
        bytes_from_vec(self.0)
    }
}

impl FromSpecImpl<Vec<u8>> for ZeroCopyBuf {
    open spec fn obeys_from_spec() -> bool {
        true
    }

    open spec fn from_spec(bytes: Vec<u8>) -> Self {
        ZeroCopyBuf(bytes)
    }
}

impl From<Vec<u8>> for ZeroCopyBuf {
    fn from(bytes: Vec<u8>) -> (wrapped: Self) {
        ZeroCopyBuf(bytes)
    }
}

impl Deref for ZeroCopyBuf {
    type Target = Vec<u8>;

    fn deref(&self) -> (bytes: &Vec<u8>)
        ensures
            *bytes == self.0,
    {
        &self.0
    }
}

#[derive(Debug)]
pub enum StringOrBuffer {
    Buffer(ZeroCopyBuf),
    String(String),
}

impl StringOrBuffer {
    /// The bytes of the buffer, or of the string in UTF-8.
    pub open spec fn bytes(self) -> Seq<u8> {
        match self {
            StringOrBuffer::Buffer(buffer) => buffer.0@,
            StringOrBuffer::String(text) => encode_utf8(text@),
        }
    }

    pub fn serialize(&self) -> (serialized: Serialized)
        ensures
            serialized@ == match *self {
                StringOrBuffer::Buffer(buffer) => SerializedView::Bytes(buffer.0@),
                StringOrBuffer::String(text) => SerializedView::String(text@),
            },
    {
        match self {
            StringOrBuffer::Buffer(buffer) => buffer.serialize(),
            StringOrBuffer::String(text) => Serialized::String(text.clone()),
        }
    }

    /// Reads a string or bytes. Anything else is handed back.
    pub fn deserialize(input: Deserialized) -> (read: Result<StringOrBuffer, Deserialized>)
        ensures
            match input {
                Deserialized::Str(text) => read == Ok::<_, Deserialized>(
                    StringOrBuffer::String(text),
                ),
                Deserialized::Char(c) => read matches Ok(StringOrBuffer::String(text)) && text@
                    == seq![c],
                Deserialized::Bytes(bytes) => read == Ok::<_, Deserialized>(
                    StringOrBuffer::Buffer(ZeroCopyBuf(bytes)),
                ),
                _ => read == Err::<StringOrBuffer, _>(input),
            },
    {
        match input {
            Deserialized::Str(text) => Ok(StringOrBuffer::String(text)),
            Deserialized::Char(c) => {
                let mut text = String::new();
                text.push(c);
                assert(text@ == seq![c]);
                Ok(StringOrBuffer::String(text))
            },
            Deserialized::Bytes(bytes) => Ok(StringOrBuffer::Buffer(ZeroCopyBuf::from(bytes))),
            other => Err(other),
        }
    }

    /// The bytes as a buffer that can be shared.
    pub fn into_bytes(self) -> (buffer: Bytes)
        ensures
            shared_bytes(buffer) == self.bytes(),
    {
        match self {
            StringOrBuffer::Buffer(buffer) => buffer.into_bytes(),
            StringOrBuffer::String(text) => bytes_from_vec(
                vstd::slice::slice_to_vec(text.as_str().as_bytes()),
            ),
        }
    }
}

impl Deref for StringOrBuffer {
    type Target = [u8];

    fn deref(&self) -> (bytes: &[u8])
        ensures
            bytes@ == self.bytes(),
    {
        match self {
            StringOrBuffer::Buffer(buffer) => buffer.0.as_slice(),
            StringOrBuffer::String(text) => text.as_str().as_bytes(),
        }
    }
}

} // verus!
