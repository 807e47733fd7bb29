//! Errors that native code reports to JavaScript, and those that come from it.
use crate::backend::{called, last_answer, Call, JsBackend};
use crate::data::{is_answer, undefined, Value, ValueView};
use crate::handle::{HandleInternal, Local};
use crate::isolate::Isolate;
use crate::ops::RealmIdx;
use crate::scope::HandleScope;
use crate::serde::sent;
use crate::state::JsRealm;
use crate::text::{
    copy_text, first_bytes, first_index, get_first_bytes, get_last_bytes, is_multiline, last_bytes,
    lemma_ascii_bytes, lemma_first_index, lemma_index_of_first, line_count, same_text,
    signed_decimal, signed_to_string, split_at_first, split_once,
};
use vstd::prelude::*;
use vstd::utf8::{encode_utf8, is_ascii_chars};

verus! {

/// An error message together with the name of the JavaScript class that it is thrown as.
#[derive(Debug)]
pub struct CustomError {
    pub class: &'static str,
    pub message: String,
}

/// Any error that an operation of the runtime can end with.
#[derive(Debug)]
pub enum Error {
    Custom(CustomError),
    Js(JsError),
    Message(String),
    /// An error with a note on what was being done when it came up.
    Context { context: String, source: Box<Error> },
}

impl Error {
    /// The error was made by [`custom_error`] with this class and this message.
    pub open spec fn is_custom(self, class: Seq<char>, message: Seq<char>) -> bool {
        self matches Error::Custom(custom) && custom.class@ == class && custom.message@ == message
    }

    /// The error is nothing but this text.
    pub open spec fn is_message(self, text: Seq<char>) -> bool {
        self matches Error::Message(message) && message@ == text
    }

    /// The class of the custom error under all the notes, if there is one.
    pub open spec fn class(self) -> Option<&'static str>
        decreases self,
    {
        match self {
            Error::Custom(custom) => Some(custom.class),
            Error::Js(_) => None,
            Error::Message(_) => None,
            Error::Context { context: _, source } => source.class(),
        }
    }

    /// What is shown of the error.
    pub open spec fn text(self) -> Seq<char> {
        match self {
            Error::Custom(custom) => custom.message@,
            Error::Js(js_error) => js_error.text(),
            Error::Message(message) => message@,
            Error::Context { context, source: _ } => context@,
        }
    }

    /// What is shown of the error.
    pub fn to_string(&self) -> (text: String)
        ensures
            text@ == self.text(),
    {
        match self {
            Error::Custom(custom) => custom.message.clone(),
            Error::Js(js_error) => js_error.to_string(),
            Error::Message(message) => message.clone(),
            Error::Context { context, source: _ } => context.clone(),
        }
    }

    /// The same error with a note on what was being done.
    pub fn context(self, context: String) -> (noted: Error)
        ensures
            noted == (Error::Context { context, source: Box::new(self) }),
    {
        Error::Context { context, source: Box::new(self) }
    }
}

/// A note on an error hides neither that it is a custom error nor its class, and is what is
/// shown of it.
pub proof fn context_keeps_class(error: Error, context: String)
    ensures
        (Error::Context { context, source: Box::new(error) }).class() == error.class(),
        (Error::Context { context, source: Box::new(error) }).text() == context@,
{
}

/// Creates a new error with a caller-specified error class name and message.
pub fn custom_error(class: &'static str, message: &str) -> (error: Error)
    ensures
        error.is_custom(class@, message@),
        error.class() == Some(class),
        error.text() == message@,
{
    Error::Custom(CustomError { class, message: message.to_owned() })
}

pub fn generic_error(message: &str) -> (error: Error)
    ensures
        error.is_custom("Error"@, message@),
{
    custom_error("Error", message)
}

pub fn type_error(message: &str) -> (error: Error)
    ensures
        error.is_custom("TypeError"@, message@),
{
    custom_error("TypeError", message)
}

pub fn range_error(message: &str) -> (error: Error)
    ensures
        error.is_custom("RangeError"@, message@),
{
    custom_error("RangeError", message)
}

pub fn invalid_hostname(hostname: &str) -> (error: Error)
    ensures
        error.is_custom("TypeError"@, "Invalid hostname: '"@ + hostname@ + "'"@),
{
    let mut message = "Invalid hostname: '".to_owned();
    message.append(hostname);
    message.append("'");
    type_error(message.as_str())
}

pub fn uri_error(message: &str) -> (error: Error)
    ensures
        error.is_custom("URIError"@, message@),
{
    custom_error("URIError", message)
}

pub fn bad_resource(message: &str) -> (error: Error)
    ensures
        error.is_custom("BadResource"@, message@),
{
    custom_error("BadResource", message)
}

pub fn bad_resource_id() -> (error: Error)
    ensures
        error.is_custom("BadResource"@, "Bad resource ID"@),
{
    custom_error("BadResource", "Bad resource ID")
}

pub fn not_supported() -> (error: Error)
    ensures
        error.is_custom("NotSupported"@, "The operation is not supported"@),
{
    custom_error("NotSupported", "The operation is not supported")
}

pub fn resource_unavailable() -> (error: Error)
    ensures
        error.is_custom(
            "Busy"@,
            "Resource is unavailable because it is in use by a promise"@,
        ),
{
    custom_error("Busy", "Resource is unavailable because it is in use by a promise")
}

/// If this error was created with [`custom_error`], returns the specified error class name. In
/// all other cases this function returns `None`.
pub fn get_custom_error_class(error: &Error) -> (class: Option<&'static str>)
    ensures
        class == error.class(),
    decreases error,
{
    match error {
        Error::Custom(custom) => Some(custom.class),
        Error::Js(_) => None,
        Error::Message(_) => None,
        Error::Context { context: _, source } => get_custom_error_class(source),
    }
}

/// An exception coming from JavaScript, with stack frames and line numbers.
#[derive(Debug, PartialEq)]
pub struct JsError {
    pub name: Option<String>,
    pub message: Option<String>,
    pub stack: Option<String>,
    pub cause: Option<Box<JsError>>,
    pub exception_message: String,
    pub frames: Vec<JsStackFrame>,
    pub source_line: Option<String>,
    pub source_line_frame_index: Option<usize>,
    pub aggregated: Option<Vec<JsError>>,
}

#[derive(Debug, PartialEq)]
pub struct JsStackFrame {
    pub typename: Option<String>,
    pub function_name: Option<String>,
    pub method_name: Option<String>,
    pub file_name: Option<String>,
    pub line_number: Option<i64>,
    pub column_number: Option<i64>,
    pub eval_origin: Option<String>,
    pub is_top_level: Option<bool>,
    pub is_eval: bool,
    pub is_native: bool,
    pub is_constructor: bool,
    pub is_async: bool,
    pub is_promise_all: bool,
    pub promise_index: Option<i64>,
}

impl Clone for JsStackFrame {
    fn clone(&self) -> (copy: Self)
        ensures
            copy == *self,
    {
        JsStackFrame {
            typename: copy_text(&self.typename),
            function_name: copy_text(&self.function_name),
            method_name: copy_text(&self.method_name),
            file_name: copy_text(&self.file_name),
            line_number: self.line_number,
            column_number: self.column_number,
            eval_origin: copy_text(&self.eval_origin),
            is_top_level: self.is_top_level,
            is_eval: self.is_eval,
            is_native: self.is_native,
            is_constructor: self.is_constructor,
            is_async: self.is_async,
            is_promise_all: self.is_promise_all,
            promise_index: self.promise_index,
        }
    }
}

/// The errors say the same, with all that they are caused by and made up of.
pub open spec fn same_error(error: JsError, other: JsError) -> bool
    decreases error,
{
    &&& error.name == other.name
    &&& error.message == other.message
    &&& error.stack == other.stack
    &&& match (error.cause, other.cause) {
        (Some(cause), Some(other_cause)) => same_error(*cause, *other_cause),
        (None, None) => true,
        _ => false,
    }
    &&& error.exception_message == other.exception_message
    &&& error.frames@ == other.frames@
    &&& error.source_line == other.source_line
    &&& error.source_line_frame_index == other.source_line_frame_index
    &&& match (error.aggregated, other.aggregated) {
        (Some(errors), Some(others)) => {
            &&& errors@.len() == others@.len()
            &&& forall|i: int|
                0 <= i < errors@.len() ==> same_error(#[trigger] errors@[i], others@[i])
        },
        (None, None) => true,
        _ => false,
    }
}

impl JsError {
    fn copy(&self) -> (copy: Self)
        ensures
            same_error(*self, copy),
        decreases *self,
    {
        let cause = match &self.cause {
            Some(cause) => Some(Box::new(cause.copy())),
            None => None,
        };
        let mut frames: Vec<JsStackFrame> = Vec::new();
        let mut i: usize = 0;
        while i < self.frames.len()
            invariant
                i <= self.frames@.len(),
                frames@ == self.frames@.take(i as int),
            decreases self.frames@.len() - i,
        {
            frames.push(self.frames[i].clone());
            i = i + 1;
            assert(frames@ =~= self.frames@.take(i as int));
        }
        assert(self.frames@.take(i as int) == self.frames@);
        let aggregated = match &self.aggregated {
            Some(errors) => {
                let mut copies: Vec<JsError> = Vec::new();
                let mut i: usize = 0;
                while i < errors.len()
                    invariant
                        i <= errors@.len(),
                        copies@.len() == i,
                        self.aggregated == Some(*errors),
                        forall|k: int|
                            0 <= k < i ==> same_error(#[trigger] errors@[k], copies@[k]),
                    decreases errors@.len() - i,
                {
                    assert(decreases_to!(*self => self.aggregated->0[i as int]));
                    copies.push(errors[i].copy());
                    i = i + 1;
                }
                Some(copies)
            },
            None => None,
        };
        JsError {
            name: copy_text(&self.name),
            message: copy_text(&self.message),
            stack: copy_text(&self.stack),
            cause,
            exception_message: self.exception_message.clone(),
            frames,
            source_line: copy_text(&self.source_line),
            source_line_frame_index: self.source_line_frame_index,
            aggregated,
        }
    }
}

impl Clone for JsError {
    fn clone(&self) -> (copy: Self)
        ensures
            same_error(*self, copy),
    {
        self.copy()
    }
}

/// A position in a source file, as it is shown.
pub open spec fn source_loc(file_name: Seq<char>, line_number: int, column_number: int) -> Seq<
    char,
> {
    file_name + ":"@ + signed_decimal(line_number) + ":"@ + signed_decimal(column_number)
}

impl JsStackFrame {
    /// Where the frame is, if its file, line and column are all known.
    pub open spec fn location(self) -> Option<Seq<char>> {
        match (self.file_name, self.line_number, self.column_number) {
            (Some(file_name), Some(line), Some(column)) => Some(
                source_loc(file_name@, line as int, column as int),
            ),
            _ => None,
        }
    }

    pub fn from_location(
        file_name: Option<String>,
        line_number: Option<i64>,
        column_number: Option<i64>,
    ) -> (frame: Self)
        ensures
            frame == (JsStackFrame {
                typename: None,
                function_name: None,
                method_name: None,
                file_name,
                line_number,
                column_number,
                eval_origin: None,
                is_top_level: None,
                is_eval: false,
                is_native: false,
                is_constructor: false,
                is_async: false,
                is_promise_all: false,
                promise_index: None,
            }),
    {
        JsStackFrame {
            typename: None,
            function_name: None,
            method_name: None,
            file_name,
            line_number,
            column_number,
            eval_origin: None,
            is_top_level: None,
            is_eval: false,
            is_native: false,
            is_constructor: false,
            is_async: false,
            is_promise_all: false,
            promise_index: None,
        }
    }
}

/// A position in a source file, as it is shown.
pub fn format_source_loc(file_name: &str, line_number: i64, column_number: i64) -> (text: String)
    ensures
        text@ == source_loc(file_name@, line_number as int, column_number as int),
{
    let mut text = file_name.to_owned();
    text.append(":");
    text.append(signed_to_string(line_number).as_str());
    text.append(":");
    text.append(signed_to_string(column_number).as_str());
    text
}

/// The text that a callback which describes exceptions has answered. Anything but a string leaves
/// it to the default, which is no text.
pub open spec fn described(answer: Option<Value>) -> Seq<char> {
    match answer {
        Some(Value::String { inner }) => inner@,
        _ => Seq::empty(),
    }
}

/// `message` is how a thrown value is described in a realm. Where a callback is set for that, it
/// was called with the value; otherwise nothing happened, and the default is no text.
pub open spec fn formatted<B: JsBackend>(
    before: Isolate<B>,
    after: Isolate<B>,
    realm_idx: RealmIdx,
    thrown: ValueView,
    message: Seq<char>,
) -> bool {
    match before.slots@[realm_idx as int].js_format_exception_cb {
        Some(cb) => {
            &&& called(before, after, Call { function: cb.value(), args: seq![sent(thrown)] })
            &&& exists|answer: Option<Value>| #[trigger]
                is_answer(last_answer(after), answer) && message == described(answer)
        },
        None => after == before && message == Seq::<char>::empty(),
    }
}

/// Describes a thrown value.
fn format_exception<'s, B: JsBackend>(
    scope: &mut HandleScope<'s, B>,
    exception: Local<'s, Value>,
) -> (message: String)
    requires
        old(scope).realm_idx < old(scope).isolate.slots@.len(),
    ensures
        formatted(
            *old(scope).isolate,
            *final(scope).isolate,
            old(scope).realm_idx,
            exception.value()@,
            message@,
        ),
        final(scope).isolate.keeps(*old(scope).isolate),
        *final(final(scope).isolate) == *final(old(scope).isolate),
        final(scope).realm_idx == old(scope).realm_idx,
{
    let callback = match &JsRealm::state_from_scope(scope).js_format_exception_cb {
        Some(callback) => callback.clone(),
        None => {
            return String::new();
        },
    };
    let this = undefined(scope);
    let ghost thrown = exception.value()@;
    let args = vec![exception];
    assert(args@.map_values(|arg: Local<'_, Value>| sent(arg.value()@)) =~= seq![sent(thrown)]);
    match callback.get_data().call(scope, this, args.as_slice()) {
        Some(answer) => match &**answer.get_data() {
            Value::String { inner } => inner.clone(),
            _ => String::new(),
        },
        None => String::new(),
    }
}

impl JsError {
    /// Nothing is known of the exception but its message.
    pub open spec fn is_bare(self, exception_message: Seq<char>) -> bool {
        &&& self.name is None
        &&& self.message is None
        &&& self.stack is None
        &&& self.cause is None
        &&& self.exception_message@ == exception_message
        &&& self.frames@.len() == 0
        &&& self.source_line is None
        &&& self.source_line_frame_index is None
        &&& self.aggregated is None
    }

    /// What is known of a thrown value, which is how it is described. The callback that the scope's
    /// realm has for that is called with the value, and its answer counts where it is a string.
    pub fn from_v8_exception<'s, B: JsBackend>(
        scope: &mut HandleScope<'s, B>,
        exception: Local<'s, Value>,
    ) -> (error: JsError)
        requires
            old(scope).realm_idx < old(scope).isolate.slots@.len(),
        ensures
            error.is_bare(error.exception_message@),
            formatted(
                *old(scope).isolate,
                *final(scope).isolate,
                old(scope).realm_idx,
                exception.value()@,
                error.exception_message@,
            ),
            final(scope).isolate.keeps(*old(scope).isolate),
            *final(final(scope).isolate) == *final(old(scope).isolate),
            final(scope).realm_idx == old(scope).realm_idx,
    {
        JsError {
            name: None,
            message: None,
            stack: None,
            cause: None,
            exception_message: format_exception(scope, exception),
            frames: Vec::new(),
            source_line: None,
            source_line_frame_index: None,
            aggregated: None,
        }
    }

    /// What is shown of the exception: its stack where that has more than one line, and
    /// otherwise its message and, where it is known, the place that it was thrown from.
    pub open spec fn text(self) -> Seq<char> {
        if self.stack is Some && line_count(self.stack->0@) > 1 {
            self.stack->0@
        } else if self.frames@.len() > 0 && self.frames@[0].location() is Some {
            self.exception_message@ + "\n    at "@ + self.frames@[0].location()->0
        } else {
            self.exception_message@
        }
    }

    /// What is shown of the exception.
    pub fn to_string(&self) -> (text: String)
        ensures
            text@ == self.text(),
    {
        if let Some(stack) = &self.stack {
            if is_multiline(stack.as_str()) {
                return stack.clone();
            }
        }
        let mut text = self.exception_message.clone();
        if self.frames.len() > 0 {
            let frame = &self.frames[0];
            if let (Some(file_name), Some(line), Some(column)) = (
                &frame.file_name,
                frame.line_number,
                frame.column_number,
            ) {
                text.append("\n    at ");
                text.append(format_source_loc(file_name.as_str(), line, column).as_str());
            }
        }
        text
    }
}

/// What is read of a URL.
pub struct UrlParts {
    /// The whole of it, in its normal form.
    pub href: String,
    pub scheme: String,
    pub path: String,
}

/// A letter or a digit, or one of a few signs that stand for themselves in a URL.
pub open spec fn is_plain_char(c: char) -> bool {
    ||| 'a' <= c <= 'z'
    ||| 'A' <= c <= 'Z'
    ||| '0' <= c <= '9'
    ||| c == ':'
    ||| c == ';'
    ||| c == '='
    ||| c == ','
    ||| c == '.'
}

/// A file name of plain characters alone.
pub open spec fn is_plain_name(name: Seq<char>) -> bool {
    forall|i: int| 0 <= i < name.len() ==> is_plain_char(#[trigger] name[i])
}

/// What stands behind the scheme of a `data` URL, in whichever case the scheme is written.
pub open spec fn data_payload(name: Seq<char>) -> Option<Seq<char>> {
    if name.len() >= 5 && (name[0] == 'd' || name[0] == 'D') && (name[1] == 'a' || name[1] == 'A')
        && (name[2] == 't' || name[2] == 'T') && (name[3] == 'a' || name[3] == 'A') && name[4]
        == ':' {
        Some(name.skip(5))
    } else {
        None
    }
}

/// What `Url::parse` makes of a string: the whole URL, its scheme and its path, or the text of
/// the error.
pub uninterp spec fn parsed_url(input: Seq<char>) -> Result<
    (Seq<char>, Seq<char>, Seq<char>),
    Seq<char>,
>;

/// Calls `url::Url::parse` and takes from the result, with `as_str`, `scheme` and `path`, what
/// the runtime reads, or the text of the error. These are functions of the string alone, to which
/// the contract gives a name. Of a string of plain characters it says more: where the scheme is
/// `data`, the path is what stands behind it, and no other string has that scheme.
#[verifier::external_body]
pub(crate) fn parse_url(input: &str) -> (parsed: Result<UrlParts, String>)
    ensures
        match parsed {
            Ok(parts) => parsed_url(input@) == Ok::<_, Seq<char>>(
                (parts.href@, parts.scheme@, parts.path@),
            ),
            Err(text) => parsed_url(input@) == Err::<(Seq<char>, Seq<char>, Seq<char>), _>(text@),
        },
        is_plain_name(input@) ==> match data_payload(input@) {
            Some(payload) => parsed matches Ok(parts) && parts.scheme@ == "data"@ && parts.path@
                == payload,
            None => parsed matches Ok(parts) ==> parts.scheme@ != "data"@,
        },
{
    match url::Url::parse(input) {
        Ok(url) => Ok(
            UrlParts {
                href: url.as_str().to_string(),
                scheme: url.scheme().to_string(),
                path: url.path().to_string(),
            },
        ),
        Err(error) => Err(error.to_string()),
    }
}

/// File names of at most so many bytes are shown in full.
pub const DATA_URL_ABBREV_THRESHOLD: usize = 150;

/// A `data` URL with only the ends of its payload.
pub open spec fn abbreviated_parts(scheme: Seq<char>, path: Seq<char>) -> Option<Seq<char>> {
    if scheme != "data"@ {
        None
    } else {
        match split_at_first(path, ',') {
            Some((head, tail)) => match (first_bytes(tail, 20), last_bytes(tail, 20)) {
                (Some(start), Some(end)) => Some(
                    scheme + ":"@ + head + ","@ + start + "......"@ + end,
                ),
                _ => None,
            },
            None => None,
        }
    }
}

/// The short form of a file name that has one.
pub open spec fn abbreviated(file_name: Seq<char>) -> Option<Seq<char>> {
    if encode_utf8(file_name).len() <= DATA_URL_ABBREV_THRESHOLD {
        None
    } else if is_plain_name(file_name) {
        match data_payload(file_name) {
            Some(path) => abbreviated_parts("data"@, path),
            None => None,
        }
    } else {
        match parsed_url(file_name) {
            Ok((_, scheme, path)) => abbreviated_parts(scheme, path),
            Err(_) => None,
        }
    }
}

/// A file name as it is shown in a stack trace.
pub open spec fn shown_name(file_name: Seq<char>) -> Seq<char> {
    match abbreviated(file_name) {
        Some(short) => short,
        None => file_name,
    }
}

/// A name of plain characters that is shortened stays as it is when it is shortened again.
pub proof fn shortening_twice_is_once(file_name: Seq<char>)
    requires
        is_plain_name(file_name),
    ensures
        shown_name(shown_name(file_name)) == shown_name(file_name),
{
    if abbreviated(file_name) is Some {
        let path = data_payload(file_name)->0;
        assert forall|i: int| 0 <= i < path.len() implies is_plain_char(#[trigger] path[i]) by {
            assert(path[i] == file_name[i + 5]);
        }
        lemma_short_form_stays(path);
    }
}

proof fn lemma_short_form_stays(path: Seq<char>)
    requires
        is_plain_name(path),
        abbreviated_parts("data"@, path) is Some,
    ensures
        ({
            let short = abbreviated_parts("data"@, path)->0;
            &&& is_plain_name(short)
            &&& data_payload(short) matches Some(payload)
            &&& abbreviated_parts("data"@, payload) == Some(short)
        }),
{
    reveal_strlit("data");
    reveal_strlit(":");
    reveal_strlit(",");
    reveal_strlit("......");
    let short = abbreviated_parts("data"@, path)->0;
    let k = first_index(path, ',');
    assert(path.contains(','));
    lemma_first_index(path, ',');
    let head = path.take(k);
    let tail = path.skip(k + 1);
    assert(is_ascii_chars(tail));
    vstd::utf8::is_ascii_chars_encode_utf8(tail);
    lemma_ascii_bytes(tail, 20);
    let start = tail.take(20);
    let end = tail.skip(tail.len() - 20);
    let payload = head + ","@ + start + "......"@ + end;
    let again = start + "......"@ + end;
    assert(short == "data"@ + ":"@ + head + ","@ + start + "......"@ + end);
    assert forall|i: int| 0 <= i < short.len() implies is_plain_char(#[trigger] short[i]) by {
        let at: int = i - 5;
        if i < 5 {
        } else if at < k {
            assert(short[i] == path[at]);
        } else if at == k {
            assert(short[i] == ',');
        } else if at < k + 21 {
            assert(short[i] == path[at]);
        } else if at < k + 27 {
            assert(short[i] == '.');
        } else {
            assert(short[i] == end[at - k - 27]);
            assert(end[at - k - 27] == path[k + 1 + tail.len() - 20 + (at - k - 27)]);
        }
    }
    assert(short.skip(5) =~= payload);
    assert(payload[k] == ',');
    assert forall|i: int| 0 <= i < k implies payload[i] != ',' by {
        assert(payload[i] == path[i]);
    }
    lemma_index_of_first(payload, ',', k);
    assert(payload.take(k) =~= head);
    assert(payload.skip(k + 1) =~= again);
    assert forall|i: int| 0 <= i < again.len() implies '\0' <= #[trigger] again[i] <= '\u{7f}' by {
        assert(again[i] == short[i + k + 6]);
    }
    lemma_ascii_bytes(again, 20);
    assert(again.take(20) =~= start);
    assert(again.skip(again.len() - 20) =~= end);
}

/// A file name as it is shown in a stack trace: a long `data` URL is cut down to the ends of
/// its payload.
pub fn format_file_name(file_name: &str) -> (shown: String)
    ensures
        shown@ == shown_name(file_name@),
{
    match abbrev_file_name(file_name) {
        Some(short) => short,
        None => file_name.to_owned(),
    }
}

/// The short form of a file name that has one.
pub fn abbrev_file_name(file_name: &str) -> (short: Option<String>)
    ensures
        match short {
            Some(short) => abbreviated(file_name@) == Some(short@),
            None => abbreviated(file_name@) is None,
        },
{
    if file_name.as_bytes().len() <= DATA_URL_ABBREV_THRESHOLD {
        return None;
    }
    match parse_url(file_name) {
        Ok(url) => abbrev_url(&url),
        Err(_) => None,
    }
}

/// A `data` URL with only the ends of its payload.
pub fn abbrev_url(url: &UrlParts) -> (short: Option<String>)
    ensures
        match short {
            Some(short) => abbreviated_parts(url.scheme@, url.path@) == Some(short@),
            None => abbreviated_parts(url.scheme@, url.path@) is None,
        },
{
    if !same_text(url.scheme.as_str(), "data") {
        return None;
    }
    match split_once(url.path.as_str(), ',') {
        Some((head, tail)) => {
            let start = match get_first_bytes(tail.as_str(), 20) {
                Some(start) => start,
                None => return None,
            };
            let end = match get_last_bytes(tail.as_str(), 20) {
                Some(end) => end,
                None => return None,
            };
            let mut short = url.scheme.clone();
            short.append(":");
            short.append(head.as_str());
            short.append(",");
            short.append(start.as_str());
            short.append("......");
            short.append(end.as_str());
            Some(short)
        },
        None => None,
    }
}

} // verus!
