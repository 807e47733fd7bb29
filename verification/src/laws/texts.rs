//! What texts and errors are put together from.
use crate::error::{
    abbrev_file_name, abbrev_url, bad_resource, bad_resource_id, custom_error, format_file_name,
    format_source_loc, generic_error, get_custom_error_class, invalid_hostname, is_plain_name,
    not_supported, parsed_url, range_error, resource_unavailable, type_error, uri_error, Error, JsError,
    JsStackFrame, UrlParts,
};
use crate::text::{
    chars_of, decimal, digit, first_bytes, get_first_bytes, get_last_bytes, is_multiline, last_bytes,
    lemma_ascii_bytes, lemma_first_index, line_breaks, same_text, signed_to_string, split_once,
    trim_start_matches, trimmed_start,
};
use vstd::prelude::*;
use vstd::utf8::{
    decode_utf8_encode_utf8, encode_utf8, encode_utf8_valid_utf8, is_char_boundary, valid_utf8_split,
};

verus! {

/// The number that decimal digits stand for.
pub open spec fn number_of(digits: Seq<char>) -> int
    decreases digits.len(),
{
    if digits.len() == 0 {
        0
    } else {
        10 * number_of(digits.drop_last()) + (digits.last() as u32 - 48)
    }
}

/// These are digits, of which the first is zero only where it stands alone.
pub open spec fn are_digits(digits: Seq<char>) -> bool {
    &&& digits.len() > 0
    &&& forall|i: int| 0 <= i < digits.len() ==> 48 <= (#[trigger] digits[i]) as u32 <= 57
    &&& digits[0] as u32 == 48 ==> digits.len() == 1
}

proof fn lemma_digit(d: nat)
    requires
        d < 10,
    ensures
        digit(d) as u32 == 48 + d,
{
}

proof fn lemma_decimal(n: nat)
    ensures
        are_digits(decimal(n)),
        number_of(decimal(n)) == n,
        n > 0 ==> decimal(n)[0] as u32 != 48,
    decreases n,
{
    if n < 10 {
        lemma_digit(n);
        assert(decimal(n).drop_last() == Seq::<char>::empty());
        assert(number_of(decimal(n).drop_last()) == 0);
    } else {
        lemma_decimal(n / 10);
        lemma_digit(n % 10);
        let digits = decimal(n);
        assert(digits.drop_last() == decimal(n / 10));
        assert(digits[0] == decimal(n / 10)[0]);
        assert forall|i: int| 0 <= i < digits.len() implies 48 <= (#[trigger] digits[i]) as u32
            <= 57 by {
            if i < digits.len() - 1 {
                assert(digits[i] == decimal(n / 10)[i]);
            }
        }
    }
}

/// A number is written with the digits that stand for it, behind a minus sign where it is negative.
pub open spec fn is_written(text: Seq<char>, v: int) -> bool {
    if v < 0 {
        &&& text.len() > 0
        &&& text[0] == '-'
        &&& are_digits(text.skip(1))
        &&& number_of(text.skip(1)) == -v
    } else {
        &&& are_digits(text)
        &&& number_of(text) == v
    }
}

/// A number is written in decimal, so that it can be read again.
pub proof fn numbers_are_written_in_decimal(v: i64, text: String)
    requires
        call_ensures(signed_to_string, (v,), text),
    ensures
        is_written(text@, v as int),
{
    if v < 0 {
        lemma_decimal((-v) as nat);
        assert(text@.skip(1) =~= decimal((-v) as nat));
    } else {
        lemma_decimal(v as nat);
    }
}

/// A place in a file is its name, its line and its column, with colons between them.
pub proof fn places_are_name_line_and_column(
    file_name: &str,
    line_number: i64,
    column_number: i64,
    text: String,
)
    requires
        call_ensures(format_source_loc, (file_name, line_number, column_number), text),
    ensures
        exists|line: Seq<char>, column: Seq<char>|
            #![trigger is_written(line, line_number as int), is_written(column, column_number as int)]
            is_written(line, line_number as int) && is_written(column, column_number as int)
                && text@ == file_name@ + seq![':'] + line + seq![':'] + column,
{
    reveal_strlit(":");
    assert(":"@ =~= seq![':']);
    lemma_signed(line_number as int);
    lemma_signed(column_number as int);
}

proof fn lemma_signed(v: int)
    ensures
        is_written(crate::text::signed_decimal(v), v),
{
    if v < 0 {
        lemma_decimal((-v) as nat);
        assert(crate::text::signed_decimal(v).skip(1) =~= decimal((-v) as nat));
    } else {
        lemma_decimal(v as nat);
    }
}

/// Texts are the same where they have the same characters, and nowhere else.
pub proof fn same_texts_have_same_characters(a: &str, b: &str, same: bool)
    requires
        call_ensures(same_text, (a, b), same),
    ensures
        same <==> a@ == b@,
{
}

proof fn lemma_line_breaks(s: Seq<char>)
    ensures
        line_breaks(s) > 0 <==> s.contains('\n'),
    decreases s.len(),
{
    if s.len() > 0 {
        let fewer = s.drop_last();
        lemma_line_breaks(fewer);
        if fewer.contains('\n') {
            let i = choose|i: int| 0 <= i < fewer.len() && fewer[i] == '\n';
            assert(s[i] == '\n');
        }
        if s.contains('\n') {
            let i = choose|i: int| 0 <= i < s.len() && s[i] == '\n';
            if i < fewer.len() {
                assert(fewer[i] == '\n');
            }
        }
        if s.last() == '\n' {
            assert(s[s.len() - 1] == '\n');
        }
    }
}

/// A text has more than one line exactly where a line break stands in it before its very end.
pub proof fn lines_end_with_breaks(s: &str, multiline: bool)
    requires
        call_ensures(is_multiline, (s,), multiline),
    ensures
        multiline <==> exists|i: int| 0 <= i < s@.len() - 1 && s@[i] == '\n',
{
    if s@.len() > 0 {
        let fewer = s@.drop_last();
        lemma_line_breaks(fewer);
        if fewer.contains('\n') {
            let i = choose|i: int| 0 <= i < fewer.len() && fewer[i] == '\n';
            assert(s@[i] == '\n');
        }
        if exists|i: int| 0 <= i < s@.len() - 1 && s@[i] == '\n' {
            let i = choose|i: int| 0 <= i < s@.len() - 1 && s@[i] == '\n';
            assert(fewer[i] == '\n');
        }
    }
}

/// So many copies of a text, one behind the other.
pub open spec fn copies(text: Seq<char>, count: nat) -> Seq<char>
    decreases count,
{
    if count == 0 {
        Seq::empty()
    } else {
        text + copies(text, (count - 1) as nat)
    }
}

pub proof fn lemma_trimmed(s: Seq<char>, prefix: Seq<char>) -> (count: nat)
    requires
        prefix.len() > 0,
    ensures
        s == copies(prefix, count) + trimmed_start(s, prefix),
        !prefix.is_prefix_of(trimmed_start(s, prefix)),
    decreases s.len(),
{
    if prefix.is_prefix_of(s) {
        let rest = s.skip(prefix.len() as int);
        let count = lemma_trimmed(rest, prefix);
        assert(s =~= prefix + rest);
        assert(s =~= copies(prefix, count + 1) + trimmed_start(s, prefix)) by {
            assert(copies(prefix, count + 1) == prefix + copies(prefix, count));
        }
        count + 1
    } else {
        assert(copies(prefix, 0) + s =~= s);
        0
    }
}

/// What is trimmed off the start of a text are copies of the prefix, and all of them.
pub proof fn trimming_takes_all_copies(s: &str, prefix: &str, trimmed: String)
    requires
        call_ensures(trim_start_matches, (s, prefix), trimmed),
    ensures
        prefix@.len() > 0 ==> !prefix@.is_prefix_of(trimmed@),
        exists|count: nat| s@ == #[trigger] copies(prefix@, count) + trimmed@,
{
    if prefix@.len() > 0 {
        let count = lemma_trimmed(s@, prefix@);
        assert(s@ == copies(prefix@, count) + trimmed@);
    } else {
        assert(s@ =~= copies(prefix@, 0) + trimmed@);
    }
}

/// A text is split where the separator first stands, and the halves hold the rest of it.
pub proof fn halves_make_the_whole(
    s: &str,
    separator: char,
    halves: Option<(String, String)>,
)
    requires
        call_ensures(split_once, (s, separator), halves),
    ensures
        halves matches Some((head, tail)) ==> s@ == head@ + seq![separator] + tail@ && !head@.contains(
            separator,
        ),
        halves is None <==> !s@.contains(separator),
{
    if s@.contains(separator) {
        lemma_first_index(s@, separator);
        let at = crate::text::first_index(s@, separator);
        assert(s@ =~= s@.take(at) + seq![separator] + s@.skip(at + 1));
        assert(!s@.take(at).contains(separator)) by {
            if s@.take(at).contains(separator) {
                let i = choose|i: int| 0 <= i < at && s@.take(at)[i] == separator;
                assert(s@[i] == separator);
            }
        }
    }
}

/// The ends of a text are whole characters of so many bytes, or nothing.
pub proof fn ends_have_so_many_bytes(
    s: &str,
    count: usize,
    start: Option<String>,
    end: Option<String>,
)
    requires
        count <= encode_utf8(s@).len(),
        call_ensures(get_first_bytes, (s, count), start),
        call_ensures(get_last_bytes, (s, count), end),
    ensures
        start matches Some(start) ==> encode_utf8(start@) == encode_utf8(s@).take(count as int),
        end matches Some(end) ==> encode_utf8(end@) == encode_utf8(s@).skip(
            encode_utf8(s@).len() - count,
        ),
        start is None <==> !is_char_boundary(encode_utf8(s@), count as int),
        end is None <==> !is_char_boundary(encode_utf8(s@), encode_utf8(s@).len() - count),
{
    let bytes = encode_utf8(s@);
    encode_utf8_valid_utf8(s@);
    if is_char_boundary(bytes, count as int) {
        valid_utf8_split(bytes, count as int);
        assert(bytes.take(count as int) == bytes.subrange(0, count as int));
        decode_utf8_encode_utf8(bytes.take(count as int));
    }
    let from = bytes.len() - count;
    if is_char_boundary(bytes, from) {
        valid_utf8_split(bytes, from);
        assert(bytes.skip(from) == bytes.subrange(from, bytes.len() as int));
        decode_utf8_encode_utf8(bytes.skip(from));
    }
}

/// A URL is shortened only where its scheme is `data` and a comma stands in its path: what comes
/// before the comma stays, and of what comes after it the first and the last 20 bytes.
pub proof fn only_data_urls_are_shortened(url: UrlParts, short: Option<String>)
    requires
        call_ensures(abbrev_url, (&url,), short),
    ensures
        url.scheme@ != "data"@ ==> short is None,
        !url.path@.contains(',') ==> short is None,
        short is Some ==> exists|head: Seq<char>, tail: Seq<char>, start: Seq<char>, end: Seq<char>|
            #![trigger encode_utf8(start), encode_utf8(end), head + seq![','] + tail]
            {
                &&& url.path@ == head + seq![','] + tail
                &&& !head.contains(',')
                &&& encode_utf8(tail).len() >= 20
                &&& encode_utf8(start) == encode_utf8(tail).take(20)
                &&& encode_utf8(end) == encode_utf8(tail).skip(encode_utf8(tail).len() - 20)
                &&& short->0@ == "data:"@ + head + seq![','] + start + "......"@ + end
            },
{
    if short is Some {
        let path = url.path@;
        lemma_first_index(path, ',');
        let at = crate::text::first_index(path, ',');
        let head = path.take(at);
        let tail = path.skip(at + 1);
        assert(path =~= head + seq![','] + tail);
        assert(!head.contains(',')) by {
            if head.contains(',') {
                let i = choose|i: int| 0 <= i < at && head[i] == ',';
                assert(path[i] == ',');
            }
        }
        let start = first_bytes(tail, 20)->0;
        let end = last_bytes(tail, 20)->0;
        let bytes = encode_utf8(tail);
        encode_utf8_valid_utf8(tail);
        valid_utf8_split(bytes, 20);
        valid_utf8_split(bytes, bytes.len() - 20);
        assert(bytes.take(20) == bytes.subrange(0, 20));
        assert(bytes.skip(bytes.len() - 20) == bytes.subrange(
            bytes.len() - 20,
            bytes.len() as int,
        ));
        decode_utf8_encode_utf8(bytes.take(20));
        decode_utf8_encode_utf8(bytes.skip(bytes.len() - 20));
        reveal_strlit("data");
        reveal_strlit(":");
        reveal_strlit(",");
        reveal_strlit("data:");
        assert("data"@ + ":"@ =~= "data:"@);
        assert(","@ =~= seq![',']);
        assert(short->0@ == "data:"@ + head + seq![','] + start + "......"@ + end);
        assert(encode_utf8(start) == encode_utf8(tail).take(20));
        assert(encode_utf8(end) == encode_utf8(tail).skip(encode_utf8(tail).len() - 20));
    }
}

/// A file name of at most 150 bytes is shown as it is, and so is one that has no short form.
pub proof fn short_names_are_shown_in_full(file_name: &str, shown: String, short: Option<String>)
    requires
        call_ensures(format_file_name, (file_name,), shown),
        call_ensures(abbrev_file_name, (file_name,), short),
    ensures
        encode_utf8(file_name@).len() <= 150 ==> short is None,
        short is None ==> shown@ == file_name@,
        short is Some ==> shown@ == short->0@,
{
}

/// A long `data` URL of plain characters is shown with the first and the last 20 characters of what
/// comes behind its first comma.
pub proof fn long_data_urls_are_shortened(
    file_name: &str,
    head: Seq<char>,
    tail: Seq<char>,
    shown: String,
)
    requires
        call_ensures(format_file_name, (file_name,), shown),
        is_plain_name(file_name@),
        file_name@ == "data:"@ + head + seq![','] + tail,
        !head.contains(','),
        file_name@.len() > 150,
        tail.len() >= 20,
    ensures
        shown@ == "data:"@ + head + seq![','] + tail.take(20) + "......"@ + tail.skip(
            tail.len() - 20,
        ),
{
    let name = file_name@;
    reveal_strlit("data:");
    reveal_strlit("data");
    reveal_strlit(":");
    reveal_strlit(",");
    assert("data"@ + ":"@ =~= "data:"@);
    assert(","@ =~= seq![',']);
    let path = name.skip(5);
    assert(path =~= head + seq![','] + tail);
    assert(name[0] == 'd' && name[1] == 'a' && name[2] == 't' && name[3] == 'a' && name[4] == ':');
    assert forall|i: int| 0 <= i < name.len() implies '\0' <= #[trigger] name[i] <= '\u{7f}' by {}
    lemma_ascii_bytes(name, 0);
    assert(path[head.len() as int] == ',');
    assert forall|i: int| 0 <= i < head.len() implies path[i] != ',' by {
        assert(head[i] == path[i]);
        assert(head.contains(head[i]));
    }
    crate::text::lemma_index_of_first(path, ',', head.len() as int);
    assert(path.take(head.len() as int) =~= head);
    assert(path.skip((head.len() + 1) as int) =~= tail);
    assert forall|i: int| 0 <= i < tail.len() implies '\0' <= #[trigger] tail[i] <= '\u{7f}' by {
        assert(tail[i] == name[i + head.len() + 6]);
    }
    lemma_ascii_bytes(tail, 20);
}

/// An exception is shown by its stack where that has more than one line, and otherwise by its
/// message, with the place of the first frame behind it where that is known.
pub proof fn exceptions_show_stack_or_place(error: JsError, text: String)
    requires
        call_ensures(JsError::to_string, (&error,), text),
    ensures
        ({
            let whole = error.stack is Some && exists|i: int|
                0 <= i < error.stack->0@.len() - 1 && error.stack->0@[i] == '\n';
            let placed = error.frames@.len() > 0 && error.frames@[0].file_name is Some
                && error.frames@[0].line_number is Some && error.frames@[0].column_number is Some;
            &&& whole ==> text@ == error.stack->0@
            &&& !whole && !placed ==> text@ == error.exception_message@
            &&& !whole && placed ==> exists|line: Seq<char>, column: Seq<char>|
                #![trigger is_written(line, error.frames@[0].line_number->0 as int), is_written(column, error.frames@[0].column_number->0 as int)]
                is_written(line, error.frames@[0].line_number->0 as int) && is_written(
                    column,
                    error.frames@[0].column_number->0 as int,
                ) && text@ == error.exception_message@ + "\n    at "@
                    + error.frames@[0].file_name->0@ + seq![':'] + line + seq![':'] + column
        }),
{
    if let Some(stack) = error.stack {
        lemma_multiline(stack@);
    }
    if error.frames@.len() > 0 {
        let frame = error.frames@[0];
        if frame.file_name is Some && frame.line_number is Some && frame.column_number is Some {
            let line = crate::text::signed_decimal(frame.line_number->0 as int);
            let column = crate::text::signed_decimal(frame.column_number->0 as int);
            lemma_signed(frame.line_number->0 as int);
            lemma_signed(frame.column_number->0 as int);
            reveal_strlit(":");
            assert(":"@ =~= seq![':']);
            let name = frame.file_name->0@;
            let message = error.exception_message@ + "\n    at "@;
            assert(message + (name + ":"@ + line + ":"@ + column) =~= message + name + seq![':']
                + line + seq![':'] + column);
        }
    }
}

proof fn lemma_multiline(s: Seq<char>)
    ensures
        crate::text::line_count(s) > 1 <==> exists|i: int| 0 <= i < s.len() - 1 && s[i] == '\n',
{
    if s.len() > 0 {
        let fewer = s.drop_last();
        lemma_line_breaks(fewer);
        if fewer.contains('\n') {
            let i = choose|i: int| 0 <= i < fewer.len() && fewer[i] == '\n';
            assert(s[i] == '\n');
        }
        if exists|i: int| 0 <= i < s.len() - 1 && s[i] == '\n' {
            let i = choose|i: int| 0 <= i < s.len() - 1 && s[i] == '\n';
            assert(fewer[i] == '\n');
        }
    }
}

/// An error is shown by its own message, or by the note that was put on it last, and its class is
/// found under any number of notes.
pub proof fn errors_show_their_message(
    error: Error,
    note: String,
    noted: Error,
    text: String,
    noted_text: String,
    class: Option<&'static str>,
    noted_class: Option<&'static str>,
)
    requires
        call_ensures(Error::context, (error, note), noted),
        call_ensures(Error::to_string, (&error,), text),
        call_ensures(Error::to_string, (&noted,), noted_text),
        call_ensures(get_custom_error_class, (&error,), class),
        call_ensures(get_custom_error_class, (&noted,), noted_class),
    ensures
        noted_text@ == note@,
        noted_class == class,
        noted matches Error::Context { context, source } && context == note && *source == error,
        match error {
            Error::Custom(custom) => text@ == custom.message@ && class == Some(custom.class),
            Error::Message(message) => text@ == message@ && class is None,
            Error::Js(js_error) => text@ == js_error.text() && class is None,
            Error::Context { context, source: _ } => text@ == context@,
        },
{
}

/// An error of a class has that class, and is shown by its message.
pub open spec fn has(error: Error, class: Seq<char>, message: Seq<char>) -> bool {
    error matches Error::Custom(custom) && custom.class@ == class && custom.message@ == message
}

/// Each kind of error has its class and the message that it is made with.
pub proof fn errors_have_their_class(
    class: &'static str,
    message: &str,
    custom: Error,
    generic: Error,
    typed: Error,
    range: Error,
    hostname: Error,
    uri: Error,
    resource: Error,
    resource_id: Error,
    unsupported: Error,
    unavailable: Error,
)
    requires
        call_ensures(custom_error, (class, message), custom),
        call_ensures(generic_error, (message,), generic),
        call_ensures(type_error, (message,), typed),
        call_ensures(range_error, (message,), range),
        call_ensures(invalid_hostname, (message,), hostname),
        call_ensures(uri_error, (message,), uri),
        call_ensures(bad_resource, (message,), resource),
        call_ensures(bad_resource_id, (), resource_id),
        call_ensures(not_supported, (), unsupported),
        call_ensures(resource_unavailable, (), unavailable),
    ensures
        has(custom, class@, message@),
        has(generic, "Error"@, message@),
        has(typed, "TypeError"@, message@),
        has(range, "RangeError"@, message@),
        has(hostname, "TypeError"@, "Invalid hostname: '"@ + message@ + "'"@),
        has(uri, "URIError"@, message@),
        has(resource, "BadResource"@, message@),
        has(resource_id, "BadResource"@, "Bad resource ID"@),
        has(unsupported, "NotSupported"@, "The operation is not supported"@),
        has(unavailable, "Busy"@, "Resource is unavailable because it is in use by a promise"@),
{
}

/// A frame that is made of a place has that place and nothing else, and its copy is the same.
pub proof fn frames_have_their_place(
    file_name: Option<String>,
    line_number: Option<i64>,
    column_number: Option<i64>,
    frame: JsStackFrame,
    copy: JsStackFrame,
)
    requires
        call_ensures(
            JsStackFrame::from_location,
            (file_name, line_number, column_number),
            frame,
        ),
        call_ensures(JsStackFrame::clone, (&frame,), copy),
    ensures
        frame.file_name == file_name,
        frame.line_number == line_number,
        frame.column_number == column_number,
        frame.function_name is None,
        frame.typename is None,
        frame.method_name is None,
        frame.eval_origin is None,
        frame.is_top_level is None,
        frame.promise_index is None,
        !frame.is_eval && !frame.is_native && !frame.is_constructor && !frame.is_async
            && !frame.is_promise_all,
        copy == frame,
{
}

/// The characters of a text are given one by one, in order.
pub proof fn characters_come_in_order(s: &str, chars: Vec<char>)
    requires
        call_ensures(chars_of, (s,), chars),
    ensures
        chars@ == s@,
{
}

/// A copy of an error says the same as the error, with all that it is caused by and made up of.
pub proof fn copies_of_errors_say_the_same(error: JsError, copy: JsError, i: int)
    requires
        call_ensures(JsError::clone, (&error,), copy),
    ensures
        copy.name == error.name,
        copy.message == error.message,
        copy.stack == error.stack,
        copy.exception_message == error.exception_message,
        copy.frames@ == error.frames@,
        copy.source_line == error.source_line,
        copy.source_line_frame_index == error.source_line_frame_index,
        copy.cause is Some <==> error.cause is Some,
        copy.cause is Some ==> copy.cause->0.exception_message == error.cause->0.exception_message,
        copy.aggregated is Some <==> error.aggregated is Some,
        copy.aggregated is Some ==> copy.aggregated->0@.len() == error.aggregated->0@.len(),
        copy.aggregated is Some && 0 <= i < error.aggregated->0@.len()
            ==> copy.aggregated->0@[i].exception_message
            == error.aggregated->0@[i].exception_message,
{
    if error.cause is Some && copy.cause is Some {
        assert(crate::error::same_error(*error.cause->0, *copy.cause->0));
    }
    if error.aggregated is Some && copy.aggregated is Some && 0 <= i
        < error.aggregated->0@.len() {
        assert(crate::error::same_error(error.aggregated->0@[i], copy.aggregated->0@[i]));
    }
}

/// A `data` URL with enough behind its first comma is shortened, where the ends are whole characters.
pub proof fn data_urls_are_shortened(
    url: UrlParts,
    head: Seq<char>,
    tail: Seq<char>,
    short: Option<String>,
)
    requires
        call_ensures(abbrev_url, (&url,), short),
        url.scheme@ == "data"@,
        url.path@ == head + seq![','] + tail,
        !head.contains(','),
        encode_utf8(tail).len() >= 20,
        is_char_boundary(encode_utf8(tail), 20),
        is_char_boundary(encode_utf8(tail), encode_utf8(tail).len() - 20),
    ensures
        short is Some,
{
    let path = url.path@;
    assert(path[head.len() as int] == ',');
    assert forall|i: int| 0 <= i < head.len() implies path[i] != ',' by {
        assert(head[i] == path[i]);
        assert(head.contains(head[i]));
    }
    crate::text::lemma_index_of_first(path, ',', head.len() as int);
    assert(path.skip((head.len() + 1) as int) =~= tail);
}

/// A long file name is shortened by the URL that it is, and one that is no URL is not.
pub proof fn long_names_are_shortened_by_their_url(
    file_name: &str,
    short: Option<String>,
    url: UrlParts,
    url_short: Option<String>,
)
    requires
        call_ensures(abbrev_file_name, (file_name,), short),
        call_ensures(abbrev_url, (&url,), url_short),
        encode_utf8(file_name@).len() > 150,
        !is_plain_name(file_name@),
    ensures
        parsed_url(file_name@) == Ok::<_, Seq<char>>((url.href@, url.scheme@, url.path@)) ==> (
        short is Some <==> url_short is Some) && (short is Some ==> short->0@ == url_short->0@),
        parsed_url(file_name@) is Err ==> short is None,
{
}

} // verus!
