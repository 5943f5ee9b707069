//! The messages that the transport sends to APT.

use vstd::prelude::*;

use crate::message::{Message, format_spec, slice_pairs};
use crate::reply_laws::{
    law_capabilities_text, law_general_failure_text, law_uri_done_text, law_uri_failure_text,
    law_uri_start_text,
};
use crate::text::{decimal, decimal_spec};

verus! {

/// The message with which the transport introduces itself: it serves all
/// requests from one process, and it asks for APT's configuration.
pub open spec fn capabilities_spec() -> Seq<char> {
    format_spec(
        100,
        "Capabilities"@,
        seq![
            ("Version"@, "1.0"@),
            ("Single-Instance"@, "true"@),
            ("Send-Config"@, "true"@),
        ],
    )
}

/// The message that the transport cannot work at all.
pub open spec fn general_failure_spec(message: Seq<char>) -> Seq<char> {
    format_spec(401, "General Failure"@, seq![("Message"@, message)])
}

/// The message that a download begins.
pub open spec fn uri_start_spec(uri: Seq<char>) -> Seq<char> {
    format_spec(200, "URI Start"@, seq![("URI"@, uri)])
}

/// The message that a download is complete.
pub open spec fn uri_done_spec(uri: Seq<char>, filename: Seq<char>, size: nat) -> Seq<char> {
    format_spec(
        201,
        "URI Done"@,
        seq![("URI"@, uri), ("Filename"@, filename), ("Size"@, decimal_spec(size))],
    )
}

/// The message that a download failed.
pub open spec fn uri_failure_spec(uri: Seq<char>, message: Seq<char>) -> Seq<char> {
    format_spec(400, "URI Failure"@, seq![("URI"@, uri), ("Message"@, message)])
}

/// The message with which the transport introduces itself.
pub fn capabilities() -> (text: String)
    ensures
        text@ == capabilities_spec(),
        text@ == "100 Capabilities\nVersion: 1.0\nSingle-Instance: true\nSend-Config: true\n\n"@,
{
    proof {
        law_capabilities_text();
    }
    let fields = [("Version", "1.0"), ("Single-Instance", "true"), ("Send-Config", "true")];
    assert(slice_pairs(fields@) =~= seq![
        ("Version"@, "1.0"@),
        ("Single-Instance"@, "true"@),
        ("Send-Config"@, "true"@),
    ]);
    Message::format(100, "Capabilities", &fields)
}

/// The message that the transport cannot work at all.
pub fn general_failure(message: &str) -> (text: String)
    ensures
        text@ == general_failure_spec(message@),
        text@ == "401 General Failure\nMessage: "@ + message@ + "\n\n"@,
{
    proof {
        law_general_failure_text(message@);
    }
    let fields = [("Message", message)];
    assert(slice_pairs(fields@) =~= seq![("Message"@, message@)]);
    Message::format(401, "General Failure", &fields)
}

/// The message that a download begins.
pub fn uri_start(uri: &str) -> (text: String)
    ensures
        text@ == uri_start_spec(uri@),
        text@ == "200 URI Start\nURI: "@ + uri@ + "\n\n"@,
{
    proof {
        law_uri_start_text(uri@);
    }
    let fields = [("URI", uri)];
    assert(slice_pairs(fields@) =~= seq![("URI"@, uri@)]);
    Message::format(200, "URI Start", &fields)
}

/// The message that a download is complete: `size` bytes are in the file.
pub fn uri_done(uri: &str, filename: &str, size: usize) -> (text: String)
    ensures
        text@ == uri_done_spec(uri@, filename@, size as nat),
        text@ == "201 URI Done\nURI: "@ + uri@ + "\nFilename: "@ + filename@ + "\nSize: "@
            + decimal_spec(size as nat) + "\n\n"@,
{
    proof {
        law_uri_done_text(uri@, filename@, size as nat);
    }
    let digits = decimal(size as u64);
    let fields = [("URI", uri), ("Filename", filename), ("Size", digits.as_str())];
    assert(slice_pairs(fields@) =~= seq![
        ("URI"@, uri@),
        ("Filename"@, filename@),
        ("Size"@, digits@),
    ]);
    Message::format(201, "URI Done", &fields)
}

/// The message that a download failed.
pub fn uri_failure(uri: &str, message: &str) -> (text: String)
    ensures
        text@ == uri_failure_spec(uri@, message@),
        text@ == "400 URI Failure\nURI: "@ + uri@ + "\nMessage: "@ + message@ + "\n\n"@,
{
    proof {
        law_uri_failure_text(uri@, message@);
    }
    let fields = [("URI", uri), ("Message", message)];
    assert(slice_pairs(fields@) =~= seq![("URI"@, uri@), ("Message"@, message@)]);
    Message::format(400, "URI Failure", &fields)
}

} // verus!
