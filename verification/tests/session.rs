use apt_transport_r2::fields::Fields;
use apt_transport_r2::message::Message;
use apt_transport_r2::reply;
use apt_transport_r2::session::{Event, Next, Session, Step};
use apt_transport_r2::transport::{AcquireError, Fetch, Transport};

const CONFIGURATION: &str = "601 Configuration\n\
    Config-Item: APT::Architecture=arm64\n\
    Config-Item: Acquire::r2::AccessKeyId=mykey\n\
    Config-Item: Acquire::r2::SecretAccessKey=mysecret\n\
    Config-Item: Acquire::r2::EndpointUrl=http://127.0.0.1:9000\n\
    Config-Item: Acquire::r2::Bucket=apt-private\n\n";

const REQUEST: &str = "600 URI Acquire\n\
    URI: r2://apt-private/pool/main/test_1.0_arm64.deb\n\
    Filename: /tmp/test.deb\n\n";

/// Feeds a text line by line. Only the last line may be acted on.
fn feed(session: &mut Session, text: &str) -> Step {
    let lines: Vec<&str> = text.split_inclusive('\n').collect();
    for line in &lines[..lines.len() - 1] {
        let step = session.step(Event::Line(line.to_string()));
        assert_eq!(step.output, "");
        assert!(matches!(step.next, Next::ReadLine));
    }
    session.step(Event::Line(lines[lines.len() - 1].to_string()))
}

fn configured() -> Session {
    let (mut session, _) = Session::start();
    let step = feed(&mut session, CONFIGURATION);
    assert_eq!(step.output, "");
    assert!(matches!(step.next, Next::Connect));
    session
}

fn fetch_of(step: Step) -> Fetch {
    match step.next {
        Next::Fetch(fetch) => fetch,
        other => panic!("no download: {:?}", other),
    }
}

#[test]
fn a_session_starts_with_the_capabilities() {
    let (session, step) = Session::start();
    assert_eq!(
        step.output,
        "100 Capabilities\nVersion: 1.0\nSingle-Instance: true\nSend-Config: true\n\n"
    );
    assert!(matches!(step.next, Next::ReadLine));
    assert!(session.transport().s3().is_none());
}

#[test]
fn replies_are_written_out() {
    assert_eq!(reply::uri_start("r2://b/k"), "200 URI Start\nURI: r2://b/k\n\n");
    assert_eq!(
        reply::uri_done("r2://b/k", "/tmp/f", 0),
        "201 URI Done\nURI: r2://b/k\nFilename: /tmp/f\nSize: 0\n\n"
    );
    assert_eq!(
        reply::uri_failure("r2://b/k", "gone"),
        "400 URI Failure\nURI: r2://b/k\nMessage: gone\n\n"
    );
    assert_eq!(reply::general_failure("no"), "401 General Failure\nMessage: no\n\n");
}

#[test]
fn replies_are_read_as_they_were_written() {
    let done = Message::parse(&reply::uri_done("r2://b/k", "/tmp/f", 1234567890)).unwrap();
    assert_eq!(done.code, 201);
    assert_eq!(done.fields.get("URI").unwrap(), "r2://b/k");
    assert_eq!(done.fields.get("Filename").unwrap(), "/tmp/f");
    assert_eq!(done.fields.get("Size").unwrap(), "1234567890");
    let hello = Message::parse(&reply::capabilities()).unwrap();
    assert_eq!(hello.code, 100);
    assert_eq!(hello.fields.get("Send-Config").unwrap(), "true");
}

#[test]
fn a_configuration_is_followed_by_a_connection() {
    let session = configured();
    assert!(session.transport().s3().is_some());
}

#[test]
fn a_request_is_announced_and_fetched() {
    let mut session = configured();
    let step = feed(&mut session, REQUEST);
    assert_eq!(
        step.output,
        "200 URI Start\nURI: r2://apt-private/pool/main/test_1.0_arm64.deb\n\n"
    );
    let fetch = fetch_of(step);
    assert_eq!(fetch.bucket, "apt-private");
    assert_eq!(fetch.key, "pool/main/test_1.0_arm64.deb");
    assert_eq!(fetch.uri, "r2://apt-private/pool/main/test_1.0_arm64.deb");
    assert_eq!(fetch.filename, "/tmp/test.deb");
}

#[test]
fn a_stored_object_is_reported_with_its_size() {
    let mut session = configured();
    let fetch = fetch_of(feed(&mut session, REQUEST));
    let step = session.step(Event::Stored {
        uri: fetch.uri,
        filename: fetch.filename,
        size: "fake deb content".len(),
    });
    assert_eq!(
        step.output,
        "201 URI Done\nURI: r2://apt-private/pool/main/test_1.0_arm64.deb\n\
         Filename: /tmp/test.deb\nSize: 16\n\n"
    );
    assert!(matches!(step.next, Next::ReadLine));
}

#[test]
fn a_failed_download_is_reported_and_the_session_goes_on() {
    let mut session = configured();
    let fetch = fetch_of(feed(&mut session, REQUEST));
    let step = session.step(Event::Failed { uri: fetch.uri, message: "NoSuchKey".to_string() });
    assert_eq!(
        step.output,
        "400 URI Failure\nURI: r2://apt-private/pool/main/test_1.0_arm64.deb\n\
         Message: NoSuchKey\n\n"
    );
    assert!(matches!(step.next, Next::ReadLine));
    let next = fetch_of(feed(
        &mut session,
        "600 URI Acquire\nURI: r2://apt-private/dists/private/InRelease\nFilename: /tmp/r\n\n",
    ));
    assert_eq!(next.key, "dists/private/InRelease");
}

#[test]
fn a_request_without_fields_asks_for_an_empty_key() {
    let mut session = configured();
    let step = feed(&mut session, "600 URI Acquire\n\n");
    assert_eq!(step.output, "200 URI Start\nURI: \n\n");
    let fetch = fetch_of(step);
    assert_eq!((fetch.key.as_str(), fetch.uri.as_str(), fetch.filename.as_str()), ("", "", ""));
}

#[test]
fn a_request_before_the_configuration_aborts() {
    let (mut session, _) = Session::start();
    let step = feed(&mut session, REQUEST);
    assert_eq!(step.output, "");
    assert!(matches!(step.next, Next::Abort(AcquireError::ClientNotInitialized)));
}

#[test]
fn an_incomplete_configuration_is_a_general_failure() {
    let (mut session, _) = Session::start();
    let step = feed(
        &mut session,
        "601 Configuration\nConfig-Item: Acquire::r2::AccessKeyId=mykey\n\
         Config-Item: Acquire::r2::SecretAccessKey=mysecret\n\
         Config-Item: Acquire::r2::Bucket=apt-private\n\n",
    );
    assert_eq!(
        step.output,
        "401 General Failure\nMessage: Acquire::r2::EndpointUrl not set in apt.conf\n\n"
    );
    assert!(matches!(step.next, Next::Stop));
    assert!(session.transport().s3().is_none());
    let answer = Message::parse(&step.output).unwrap();
    assert_eq!(answer.code, 401);
    assert_eq!(
        answer.fields.get("Message").unwrap(),
        "Acquire::r2::EndpointUrl not set in apt.conf"
    );
}

#[test]
fn other_messages_and_stray_lines_are_ignored() {
    let mut session = configured();
    for text in ["\n", " \t\r\n", "102 Status\nURI: r2://b/k\n\n", "nonsense\nURI: x\n\n", "601\n\n"] {
        let step = feed(&mut session, text);
        assert_eq!(step.output, "");
        assert!(matches!(step.next, Next::ReadLine));
    }
    assert_eq!(fetch_of(feed(&mut session, REQUEST)).bucket, "apt-private");
}

#[test]
fn a_message_may_end_in_any_blank_line() {
    let mut session = configured();
    let step = feed(&mut session, "600 URI Acquire\r\nURI: r2://b/k\r\n \t\r\n");
    assert_eq!(step.output, "200 URI Start\nURI: r2://b/k\n\n");
    assert_eq!(fetch_of(step).key, "k");
}

#[test]
fn the_end_of_input_stops_without_acting_on_a_partial_message() {
    let mut session = configured();
    feed(&mut session, "600 URI Acquire\nURI: r2://b/k\n");
    let step = session.step(Event::EndOfInput);
    assert_eq!(step.output, "");
    assert!(matches!(step.next, Next::Stop));
}

#[test]
fn a_download_does_not_touch_the_lines_read_so_far() {
    let mut session = configured();
    feed(&mut session, "600 URI Acquire\nURI: r2://b/k\n");
    session.step(Event::Failed { uri: "r2://b/other".to_string(), message: String::new() });
    let fetch = fetch_of(feed(&mut session, "Filename: /tmp/f\n\n"));
    assert_eq!((fetch.uri.as_str(), fetch.filename.as_str()), ("r2://b/k", "/tmp/f"));
}

#[test]
fn a_session_can_be_configured_anew() {
    let mut session = configured();
    let changed = CONFIGURATION.replace("Bucket=apt-private", "Bucket=second");
    assert!(matches!(feed(&mut session, &changed).next, Next::Connect));
    assert_eq!(fetch_of(feed(&mut session, REQUEST)).bucket, "second");
}

#[test]
fn fields_and_items_may_stand_in_any_order_among_others() {
    let (mut session, _) = Session::start();
    let step = feed(
        &mut session,
        "601 Configuration\nConfig-Item: Acquire::R2::Bucket=first\n\
         Config-Item: Dir=/\nConfig-Item: ACQUIRE::r2::endpointurl=http://127.0.0.1:9000\n\
         Config-Item: Acquire::r2::SecretAccessKey=a=b\nConfig-Item: Acquire::r2::Bucket=last\n\
         Config-Item: acquire::r2::accesskeyid=mykey\nConfig-Item: APT=\n\n",
    );
    assert!(matches!(step.next, Next::Connect));
    let fetch = fetch_of(feed(
        &mut session,
        "600 URI Acquire\nFilename: /tmp/f \nIndex-File: true\nURI:  r2://b/k\nFail-Ignore: true\n\n",
    ));
    assert_eq!(fetch.bucket, "last");
    assert_eq!((fetch.uri.as_str(), fetch.filename.as_str()), ("r2://b/k", "/tmp/f"));
}

#[test]
fn a_session_can_start_with_a_transport_that_is_configured() {
    let mut fields = Fields::new();
    fields.add("Config-Item", "Acquire::r2::AccessKeyId=mykey");
    fields.add("Config-Item", "Acquire::r2::SecretAccessKey=mysecret");
    fields.add("Config-Item", "Acquire::r2::EndpointUrl=http://127.0.0.1:9000");
    fields.add("Config-Item", "Acquire::r2::Bucket=earlier");
    let mut transport = Transport::new();
    transport.configure(&fields).unwrap();
    let (mut session, step) = Session::with_transport(transport);
    assert_eq!(step.output, reply::capabilities());
    assert!(matches!(step.next, Next::Connect));
    assert!(session.transport().s3().is_some());
    assert_eq!(fetch_of(feed(&mut session, REQUEST)).bucket, "earlier");

    let (mut session, _) = Session::with_transport(Transport::new());
    let step = feed(&mut session, REQUEST);
    assert!(matches!(step.next, Next::Abort(AcquireError::ClientNotInitialized)));
}

/// Sends a text and reports each download as stored in one byte; gives what is sent.
fn course(session: &mut Session, text: &str) -> String {
    let mut sent = String::new();
    for line in text.split_inclusive('\n') {
        let mut step = session.step(Event::Line(line.to_string()));
        sent.push_str(&step.output);
        if let Next::Fetch(fetch) = step.next {
            step = session.step(Event::Stored { uri: fetch.uri, filename: fetch.filename, size: 1 });
            sent.push_str(&step.output);
        }
    }
    sent
}

#[test]
fn requests_are_answered_in_order_and_other_blocks_send_nothing() {
    let expected: String = ["a", "b", "c"]
        .iter()
        .map(|key| {
            let uri = format!("r2://x/{key}");
            reply::uri_start(&uri) + &reply::uri_done(&uri, key, 1)
        })
        .collect();
    let plain = "600 R\nURI: r2://x/a\nFilename: a\n\n600 R\nURI: r2://x/b\nFilename: b\n\n\
                 600 R\nFilename: c\nURI: r2://x/c\n\n";
    assert_eq!(course(&mut configured(), plain), expected);
    let mixed = plain.replace("\n\n", "\n\n\n102 Status\nURI: r2://x/z\n\nnonsense\n\n");
    assert_eq!(course(&mut configured(), &mixed), expected);
    let unclosed = format!("{plain}600 R\nURI: r2://x/d\nFilename: d\n");
    let mut session = configured();
    assert_eq!(course(&mut session, &unclosed), expected);
    assert_eq!(session.step(Event::EndOfInput).output, "");
}
