//! What APT reads in the messages that the transport sends.

use vstd::prelude::*;

use crate::config::ConfigError;
use crate::message::{MessageView, format_spec, parse_spec};
use crate::reply::{
    capabilities_spec, general_failure_spec, uri_done_spec, uri_failure_spec, uri_start_spec,
};
use crate::roundtrip::{
    is_field_name, is_single_line, law_parse_format, lemma_collected_unchanged,
};
use crate::text::{
    decimal_spec, is_digit, is_whitespace, lemma_decimal_value, occurs, trim_spec,
};
use crate::wire_laws::{
    law_block_is_read, law_format_is_closed, law_format_one_more_field, law_format_without_fields,
};

verus! {

/// A word: no white space and no colon.
spec fn is_word(s: Seq<char>) -> bool {
    forall|i: int| 0 <= i < s.len() ==> !is_whitespace(#[trigger] s[i]) && s[i] != ':'
}

/// A word can be the name of a field, and has nothing to trim.
proof fn lemma_word(s: Seq<char>)
    requires
        is_word(s),
    ensures
        is_field_name(s),
        trim_spec(s) == s,
{
    let mark = seq![':', ' '];
    assert forall|i: int| !occurs(s, mark, i) by {
        if occurs(s, mark, i) {
            assert(s.subrange(i, i + 2)[0] == mark[0]);
            assert(!is_whitespace(s[i]) && s[i] != ':');
        }
    }
}

/// The names of the fields that the transport deals in can be written as lines,
/// have nothing to trim, and differ.
proof fn lemma_field_names()
    ensures
        is_field_name("URI"@) && trim_spec("URI"@) == "URI"@,
        is_field_name("Filename"@) && trim_spec("Filename"@) == "Filename"@,
        is_field_name("Size"@) && trim_spec("Size"@) == "Size"@,
        is_field_name("Message"@) && trim_spec("Message"@) == "Message"@,
        "URI"@.len() == 3,
        "Size"@.len() == 4,
        "Message"@.len() == 7,
        "Filename"@.len() == 8,
{
    reveal_strlit("URI");
    reveal_strlit("Filename");
    reveal_strlit("Size");
    reveal_strlit("Message");
    lemma_word("URI"@);
    lemma_word("Filename"@);
    lemma_word("Size"@);
    lemma_word("Message"@);
}

/// The first message, to the character.
pub proof fn law_capabilities_text()
    ensures
        capabilities_spec()
            == "100 Capabilities\nVersion: 1.0\nSingle-Instance: true\nSend-Config: true\n\n"@,
{
    reveal_strlit("100 Capabilities\nVersion: 1.0\nSingle-Instance: true\nSend-Config: true\n\n");
    reveal_strlit("Capabilities");
    reveal_strlit("Version");
    reveal_strlit("1.0");
    reveal_strlit("Single-Instance");
    reveal_strlit("Send-Config");
    reveal_strlit("true");
    let none = Seq::<(Seq<char>, Seq<char>)>::empty();
    let one = none.push(("Version"@, "1.0"@));
    let two = one.push(("Single-Instance"@, "true"@));
    let three = two.push(("Send-Config"@, "true"@));
    lemma_status_number(100);
    law_format_without_fields(100, "Capabilities"@);
    law_format_one_more_field(100, "Capabilities"@, none, "Version"@, "1.0"@);
    law_format_one_more_field(100, "Capabilities"@, one, "Single-Instance"@, "true"@);
    law_format_one_more_field(100, "Capabilities"@, two, "Send-Config"@, "true"@);
    assert(three =~= seq![
        ("Version"@, "1.0"@),
        ("Single-Instance"@, "true"@),
        ("Send-Config"@, "true"@),
    ]);
    assert(format_spec(100, "Capabilities"@, none) =~= "100 Capabilities\n\n"@) by {
        reveal_strlit("100 Capabilities\n\n");
    }
    assert(format_spec(100, "Capabilities"@, one)
        =~= "100 Capabilities\nVersion: 1.0\n\n"@) by {
        reveal_strlit("100 Capabilities\n\n");
        reveal_strlit("100 Capabilities\nVersion: 1.0\n\n");
    }
    assert(format_spec(100, "Capabilities"@, two)
        =~= "100 Capabilities\nVersion: 1.0\nSingle-Instance: true\n\n"@) by {
        reveal_strlit("100 Capabilities\nVersion: 1.0\n\n");
        reveal_strlit("100 Capabilities\nVersion: 1.0\nSingle-Instance: true\n\n");
    }
    reveal_strlit("100 Capabilities\nVersion: 1.0\nSingle-Instance: true\n\n");
    assert(capabilities_spec()
        =~= "100 Capabilities\nVersion: 1.0\nSingle-Instance: true\nSend-Config: true\n\n"@);
}

/// The digits of the codes of replies.
proof fn lemma_status_number(code: nat)
    requires
        code == 100 || code == 200 || code == 201 || code == 400 || code == 401,
    ensures
        decimal_spec(code).len() == 3,
        decimal_spec(code)[0] as int == 48 + code / 100,
        decimal_spec(code)[1] == '0',
        decimal_spec(code)[2] as int == 48 + code % 10,
{
    reveal_with_fuel(decimal_spec, 3);
}

/// The message that the transport cannot work, to the character.
pub proof fn law_general_failure_text(message: Seq<char>)
    ensures
        general_failure_spec(message) == "401 General Failure\nMessage: "@ + message + "\n\n"@,
{
    reveal_strlit("401 General Failure\nMessage: ");
    reveal_strlit("General Failure");
    reveal_strlit("Message");
    reveal_strlit("\n\n");
    let none = Seq::<(Seq<char>, Seq<char>)>::empty();
    lemma_status_number(401);
    law_format_without_fields(401, "General Failure"@);
    law_format_one_more_field(401, "General Failure"@, none, "Message"@, message);
    assert(none.push(("Message"@, message)) =~= seq![("Message"@, message)]);
    assert(general_failure_spec(message) =~= "401 General Failure\nMessage: "@ + message
        + "\n\n"@);
}

/// The message that a download begins, to the character.
pub proof fn law_uri_start_text(uri: Seq<char>)
    ensures
        uri_start_spec(uri) == "200 URI Start\nURI: "@ + uri + "\n\n"@,
{
    reveal_strlit("200 URI Start\nURI: ");
    reveal_strlit("URI Start");
    reveal_strlit("URI");
    reveal_strlit("\n\n");
    let none = Seq::<(Seq<char>, Seq<char>)>::empty();
    lemma_status_number(200);
    law_format_without_fields(200, "URI Start"@);
    law_format_one_more_field(200, "URI Start"@, none, "URI"@, uri);
    assert(none.push(("URI"@, uri)) =~= seq![("URI"@, uri)]);
    assert(uri_start_spec(uri) =~= "200 URI Start\nURI: "@ + uri + "\n\n"@);
}

/// The message that a download is complete, to the character. The size stands in it in
/// decimal digits.
pub proof fn law_uri_done_text(uri: Seq<char>, filename: Seq<char>, size: nat)
    ensures
        uri_done_spec(uri, filename, size) == "201 URI Done\nURI: "@ + uri + "\nFilename: "@
            + filename + "\nSize: "@ + decimal_spec(size) + "\n\n"@,
{
    reveal_strlit("201 URI Done\nURI: ");
    reveal_strlit("\nFilename: ");
    reveal_strlit("\nSize: ");
    reveal_strlit("\n\n");
    reveal_strlit("URI Done");
    reveal_strlit("URI");
    reveal_strlit("Filename");
    reveal_strlit("Size");
    let none = Seq::<(Seq<char>, Seq<char>)>::empty();
    let one = none.push(("URI"@, uri));
    let two = one.push(("Filename"@, filename));
    let digits = decimal_spec(size);
    lemma_status_number(201);
    law_format_without_fields(201, "URI Done"@);
    law_format_one_more_field(201, "URI Done"@, none, "URI"@, uri);
    law_format_one_more_field(201, "URI Done"@, one, "Filename"@, filename);
    law_format_one_more_field(201, "URI Done"@, two, "Size"@, digits);
    assert(two.push(("Size"@, digits)) =~= seq![
        ("URI"@, uri),
        ("Filename"@, filename),
        ("Size"@, digits),
    ]);
    let first = "201 URI Done\nURI: "@ + uri;
    assert(format_spec(201, "URI Done"@, one) =~= first + "\n\n"@);
    let second = first + "\nFilename: "@ + filename;
    assert(format_spec(201, "URI Done"@, two) =~= second + "\n\n"@);
    assert(uri_done_spec(uri, filename, size) =~= second + "\nSize: "@ + digits + "\n\n"@);
}

/// The message that a download failed, to the character.
pub proof fn law_uri_failure_text(uri: Seq<char>, message: Seq<char>)
    ensures
        uri_failure_spec(uri, message) == "400 URI Failure\nURI: "@ + uri + "\nMessage: "@
            + message + "\n\n"@,
{
    reveal_strlit("400 URI Failure\nURI: ");
    reveal_strlit("\nMessage: ");
    reveal_strlit("\n\n");
    reveal_strlit("URI Failure");
    reveal_strlit("URI");
    reveal_strlit("Message");
    let none = Seq::<(Seq<char>, Seq<char>)>::empty();
    let one = none.push(("URI"@, uri));
    lemma_status_number(400);
    law_format_without_fields(400, "URI Failure"@);
    law_format_one_more_field(400, "URI Failure"@, none, "URI"@, uri);
    law_format_one_more_field(400, "URI Failure"@, one, "Message"@, message);
    assert(one.push(("Message"@, message)) =~= seq![("URI"@, uri), ("Message"@, message)]);
    let first = "400 URI Failure\nURI: "@ + uri;
    assert(format_spec(400, "URI Failure"@, one) =~= first + "\n\n"@);
    assert(uri_failure_spec(uri, message) =~= first + "\nMessage: "@ + message + "\n\n"@);
}

/// The text ends in an empty line and holds none before that: whoever reads lines up
/// to the first empty one reads all of it.
pub open spec fn is_one_block(text: Seq<char>) -> bool {
    let n = text.len() as int;
    &&& n >= 2 && text[n - 1] == '\n' && text[n - 2] == '\n'
    &&& text[0] != '\n'
    &&& forall|i: int| 0 <= i < n - 2 ==> !(#[trigger] text[i] == '\n' && text[i + 1] == '\n')
}

/// A reply on a download whose URI, file name and failure are of one line each is one
/// block: it ends in an empty line and holds none before that.
pub proof fn law_replies_are_one_block(
    uri: Seq<char>,
    filename: Seq<char>,
    size: nat,
    message: Seq<char>,
)
    requires
        forall|i: int| 0 <= i < uri.len() ==> uri[i] != '\n',
        forall|i: int| 0 <= i < filename.len() ==> filename[i] != '\n',
        forall|i: int| 0 <= i < message.len() ==> message[i] != '\n',
    ensures
        is_one_block(uri_start_spec(uri)),
        is_one_block(uri_done_spec(uri, filename, size)),
        is_one_block(uri_failure_spec(uri, message)),
        is_one_block(general_failure_spec(message)),
{
    reveal_strlit("URI Start");
    reveal_strlit("URI Done");
    reveal_strlit("URI Failure");
    reveal_strlit("General Failure");
    reveal_strlit("URI");
    reveal_strlit("Filename");
    reveal_strlit("Size");
    reveal_strlit("Message");
    lemma_decimal_value(size);
    let digits = decimal_spec(size);
    assert forall|i: int| 0 <= i < digits.len() implies digits[i] != '\n' by {
        assert(is_digit(digits[i]));
    }
    law_format_is_closed(200, "URI Start"@, seq![("URI"@, uri)]);
    law_format_is_closed(
        201,
        "URI Done"@,
        seq![("URI"@, uri), ("Filename"@, filename), ("Size"@, digits)],
    );
    law_format_is_closed(400, "URI Failure"@, seq![("URI"@, uri), ("Message"@, message)]);
    law_format_is_closed(401, "General Failure"@, seq![("Message"@, message)]);
}

/// Taken in line by line up to its empty line, a reply on a download reads as the code,
/// the URI, the file name, the size and the failure that it was written with, when each
/// is one line without white space around it.
pub proof fn law_reply_blocks_are_read(
    uri: Seq<char>,
    filename: Seq<char>,
    size: nat,
    message: Seq<char>,
)
    requires
        is_single_line(uri) && trim_spec(uri) == uri,
        is_single_line(filename) && trim_spec(filename) == filename,
        is_single_line(message) && trim_spec(message) == message,
    ensures
        parse_spec(uri_start_spec(uri).drop_last()) == Some(
            MessageView { code: 200, description: "URI Start"@, fields: seq![("URI"@, uri)] },
        ),
        parse_spec(uri_done_spec(uri, filename, size).drop_last()) == Some(
            MessageView {
                code: 201,
                description: "URI Done"@,
                fields: seq![
                    ("URI"@, uri),
                    ("Filename"@, filename),
                    ("Size"@, decimal_spec(size)),
                ],
            },
        ),
        parse_spec(uri_failure_spec(uri, message).drop_last()) == Some(
            MessageView {
                code: 400,
                description: "URI Failure"@,
                fields: seq![("URI"@, uri), ("Message"@, message)],
            },
        ),
{
    reveal_strlit("URI Start");
    reveal_strlit("URI Done");
    reveal_strlit("URI Failure");
    lemma_field_names();
    lemma_decimal_value(size);
    let digits = decimal_spec(size);
    lemma_word(digits);
    let start = seq![("URI"@, uri)];
    let done = seq![("URI"@, uri), ("Filename"@, filename), ("Size"@, digits)];
    let failure = seq![("URI"@, uri), ("Message"@, message)];
    law_block_is_read(200, "URI Start"@, start);
    law_block_is_read(201, "URI Done"@, done);
    law_block_is_read(400, "URI Failure"@, failure);
    lemma_collected_unchanged(start);
    lemma_collected_unchanged(done);
    lemma_collected_unchanged(failure);
}

/// APT reads in the first message what the transport says of itself.
pub proof fn law_capabilities_are_read()
    ensures
        parse_spec(capabilities_spec()) == Some(
            MessageView {
                code: 100,
                description: "Capabilities"@,
                fields: seq![
                    ("Version"@, "1.0"@),
                    ("Single-Instance"@, "true"@),
                    ("Send-Config"@, "true"@),
                ],
            },
        ),
{
    reveal_strlit("Capabilities");
    reveal_strlit("Version");
    reveal_strlit("1.0");
    reveal_strlit("Single-Instance");
    reveal_strlit("Send-Config");
    reveal_strlit("true");
    lemma_word("Version"@);
    lemma_word("Single-Instance"@);
    lemma_word("Send-Config"@);
    lemma_word("1.0"@);
    lemma_word("true"@);
    law_parse_format(
        100,
        "Capabilities"@,
        seq![("Version"@, "1.0"@), ("Single-Instance"@, "true"@), ("Send-Config"@, "true"@)],
    );
}

/// APT reads in the answer to an incomplete configuration which setting is missing.
pub proof fn law_missing_setting_is_read(missing: ConfigError)
    ensures
        parse_spec(general_failure_spec(missing.message_spec())) == Some(
            MessageView {
                code: 401,
                description: "General Failure"@,
                fields: seq![("Message"@, missing.message_spec())],
            },
        ),
{
    reveal_strlit("General Failure");
    reveal_strlit("Acquire::r2::AccessKeyId not set in apt.conf");
    reveal_strlit("Acquire::r2::SecretAccessKey not set in apt.conf");
    reveal_strlit("Acquire::r2::EndpointUrl not set in apt.conf");
    reveal_strlit("Acquire::r2::Bucket not set in apt.conf");
    lemma_field_names();
    law_parse_format(401, "General Failure"@, seq![("Message"@, missing.message_spec())]);
}

/// APT reads in the messages on a download the URI, the file name, the size and
/// the failure that they were written with, when each is one line without white
/// space around it.
pub proof fn law_download_is_read(
    uri: Seq<char>,
    filename: Seq<char>,
    size: nat,
    message: Seq<char>,
)
    requires
        is_single_line(uri) && trim_spec(uri) == uri,
        is_single_line(filename) && trim_spec(filename) == filename,
        is_single_line(message) && trim_spec(message) == message,
    ensures
        parse_spec(uri_start_spec(uri)) == Some(
            MessageView { code: 200, description: "URI Start"@, fields: seq![("URI"@, uri)] },
        ),
        parse_spec(uri_done_spec(uri, filename, size)) == Some(
            MessageView {
                code: 201,
                description: "URI Done"@,
                fields: seq![
                    ("URI"@, uri),
                    ("Filename"@, filename),
                    ("Size"@, decimal_spec(size)),
                ],
            },
        ),
        parse_spec(uri_failure_spec(uri, message)) == Some(
            MessageView {
                code: 400,
                description: "URI Failure"@,
                fields: seq![("URI"@, uri), ("Message"@, message)],
            },
        ),
{
    reveal_strlit("URI Start");
    reveal_strlit("URI Done");
    reveal_strlit("URI Failure");
    lemma_field_names();
    lemma_decimal_value(size);
    let digits = decimal_spec(size);
    lemma_word(digits);
    law_parse_format(200, "URI Start"@, seq![("URI"@, uri)]);
    law_parse_format(
        201,
        "URI Done"@,
        seq![("URI"@, uri), ("Filename"@, filename), ("Size"@, digits)],
    );
    law_parse_format(400, "URI Failure"@, seq![("URI"@, uri), ("Message"@, message)]);
}

} // verus!
