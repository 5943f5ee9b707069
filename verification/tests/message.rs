use apt_transport_r2::message::Message;

// --- Message::parse ---

#[test]
fn test_parse_simple_message() {
    let input =
        "600 URI Acquire\nURI: r2://apt-private/pool/main/pkg.deb\nFilename: /tmp/pkg.deb\n";
    let msg = Message::parse(input).unwrap();
    assert_eq!(msg.code, 600);
    assert_eq!(msg.description, "URI Acquire");
    assert_eq!(msg.fields.get("URI").unwrap(), "r2://apt-private/pool/main/pkg.deb");
    assert_eq!(msg.fields.get("Filename").unwrap(), "/tmp/pkg.deb");
}

#[test]
fn test_parse_multiple_config_items() {
    let input = "601 Configuration\n\
        Config-Item: Acquire::r2::AccessKeyId=mykey\n\
        Config-Item: Acquire::r2::SecretAccessKey=mysecret\n\
        Config-Item: Acquire::r2::Bucket=apt-private\n";
    let msg = Message::parse(input).unwrap();
    assert_eq!(msg.code, 601);
    let config = msg.fields.get("Config-Item").unwrap();
    assert!(config.contains("Acquire::r2::AccessKeyId=mykey"));
    assert!(config.contains("Acquire::r2::SecretAccessKey=mysecret"));
    assert!(config.contains("Acquire::r2::Bucket=apt-private"));
}

#[test]
fn test_parse_returns_none_on_empty() {
    assert!(Message::parse("").is_none());
}

#[test]
fn test_parse_returns_none_on_missing_code() {
    assert!(Message::parse("not a valid header\nFoo: bar\n").is_none());
}

// --- Message::format ---

#[test]
fn test_format_capabilities() {
    let output = Message::format(
        100,
        "Capabilities",
        &[("Version", "1.0"), ("Single-Instance", "true")],
    );
    assert!(output.starts_with("100 Capabilities\n"));
    assert!(output.contains("Version: 1.0\n"));
    assert!(output.contains("Single-Instance: true\n"));
    assert!(output.ends_with("\n\n"));
}

#[test]
fn test_format_empty_fields() {
    let output = Message::format(401, "General Failure", &[]);
    assert_eq!(output, "401 General Failure\n\n");
}

// --- Reading ---

#[test]
fn parse_takes_the_status_line_apart_at_the_first_space() {
    let msg = Message::parse("102 Status of  things \n").unwrap();
    assert_eq!(msg.code, 102);
    assert_eq!(msg.description, "Status of  things ");
    assert_eq!(msg.fields.len(), 0);
    assert_eq!(Message::parse("7 ").unwrap().description, "");
}

#[test]
fn parse_needs_a_number_of_32_bits_and_a_space() {
    assert_eq!(Message::parse("4294967295 X").unwrap().code, 4294967295);
    assert_eq!(Message::parse("+600 X").unwrap().code, 600);
    assert_eq!(Message::parse("000600 X").unwrap().code, 600);
    assert!(Message::parse("4294967296 X").is_none());
    assert!(Message::parse("600").is_none());
    assert!(Message::parse(" 600 X").is_none());
    assert!(Message::parse("-600 X").is_none());
    assert!(Message::parse("++600 X").is_none());
    assert!(Message::parse("+ X").is_none());
    assert!(Message::parse("6x0 X").is_none());
    assert!(Message::parse("\n600 X\n").is_none());
}

#[test]
fn parse_reads_lines_with_and_without_carriage_returns() {
    let msg = Message::parse("600 URI Acquire\r\nURI: r2://b/k\r\nFilename: /tmp/f").unwrap();
    assert_eq!(msg.description, "URI Acquire");
    assert_eq!(msg.fields.get("URI").unwrap(), "r2://b/k");
    assert_eq!(msg.fields.get("Filename").unwrap(), "/tmp/f");
    // Without a line feed after it, a carriage return belongs to the description.
    assert_eq!(Message::parse("600 URI Acquire\r").unwrap().description, "URI Acquire\r");
}

#[test]
fn parse_trims_names_and_values() {
    let msg = Message::parse("600 X\n  URI \t:   r2://b/k  \u{a0}\n").unwrap();
    assert_eq!(msg.fields.get("URI").unwrap(), "r2://b/k");
    assert!(msg.fields.get("  URI \t").is_none());
}

#[test]
fn parse_splits_a_field_at_its_first_colon_and_space() {
    let msg = Message::parse("600 X\nMessage: a: b: c\nTime:12: 30\n").unwrap();
    assert_eq!(msg.fields.get("Message").unwrap(), "a: b: c");
    assert_eq!(msg.fields.get("Time:12").unwrap(), "30");
}

#[test]
fn parse_passes_over_lines_that_are_no_fields() {
    let msg = Message::parse("600 X\nnothing here\nURI:r2://b/k\n\n: nameless\n").unwrap();
    assert_eq!(msg.fields.len(), 1);
    assert_eq!(msg.fields.get("").unwrap(), "nameless");
}

#[test]
fn parse_joins_values_of_the_same_name() {
    let msg = Message::parse("600 X\nA: 1\nB: 2\nA: 3\nA: \nA: 4\na: 5\n").unwrap();
    assert_eq!(msg.fields.get("A").unwrap(), "1\n3\n\n4");
    assert_eq!(msg.fields.get("B").unwrap(), "2");
    assert_eq!(msg.fields.get("a").unwrap(), "5");
    assert_eq!(msg.fields.len(), 3);
}

#[test]
fn parse_puts_no_line_feed_after_an_empty_value() {
    let msg = Message::parse("600 X\nA: \nA: \nA: 1\n").unwrap();
    assert_eq!(msg.fields.get("A").unwrap(), "1");
}

// --- Writing ---

#[test]
fn format_writes_fields_in_order() {
    assert_eq!(
        Message::format(201, "URI Done", &[("URI", "r2://b/k"), ("Size", "16"), ("URI", "")]),
        "201 URI Done\nURI: r2://b/k\nSize: 16\nURI: \n\n"
    );
    assert_eq!(Message::format(0, "", &[]), "0 \n\n");
    assert_eq!(Message::format(4294967295, "x", &[]), "4294967295 x\n\n");
}

// --- Both ways ---

#[test]
fn a_message_is_read_back_as_it_was_written() {
    let fields = [("URI", "r2://b/k: x"), ("Empty", ""), ("Größe", "16 Bytes")];
    let msg = Message::parse(&Message::format(4294967295, " a b ", &fields)).unwrap();
    assert_eq!(msg.code, 4294967295);
    assert_eq!(msg.description, " a b ");
    assert_eq!(msg.fields.len(), 3);
    for (i, (name, value)) in fields.iter().enumerate() {
        assert_eq!(msg.fields.name(i), *name);
        assert_eq!(msg.fields.value(i), *value);
    }
}

/// The fields of a message, one for each part of each value.
fn part_fields(msg: &Message) -> Vec<(&str, &str)> {
    let mut found = Vec::new();
    for i in 0..msg.fields.len() {
        for part in msg.fields.value(i).split('\n') {
            found.push((msg.fields.name(i), part));
        }
    }
    found
}

#[test]
fn a_message_that_was_read_is_written_out_and_read_again() {
    let first =
        Message::parse("601 Conf \nA:  1 \nB: \nA: \nno field\nA: 2: 3\n: \nB: \nC: x\r\n").unwrap();
    assert_eq!(first.fields.get("A").unwrap(), "1\n\n2: 3");
    let forward = part_fields(&first);
    let again = Message::parse(&Message::format(first.code, &first.description, &forward)).unwrap();
    assert_eq!(again.code, 601);
    assert_eq!(again.description, "Conf ");
    assert_eq!(part_fields(&again), forward);

    // The names in another order.
    let mut order: Vec<(&str, &str)> = Vec::new();
    for name in ["C", "", "B", "A"] {
        order.extend(forward.iter().filter(|field| field.0 == name));
    }
    let again = Message::parse(&Message::format(first.code, &first.description, &order)).unwrap();
    assert_eq!(again.fields.len(), first.fields.len());
    for i in 0..first.fields.len() {
        assert_eq!(again.fields.get(first.fields.name(i)).unwrap(), first.fields.value(i));
    }
}

#[test]
fn lines_without_fields_and_line_endings_do_not_matter() {
    let plain = Message::parse("600 URI Acquire\nURI: r2://b/k\nFilename: /tmp/f").unwrap();
    for input in [
        "600 URI Acquire\nURI: r2://b/k\nFilename: /tmp/f\n",
        "600 URI Acquire\r\nURI: r2://b/k\r\nFilename: /tmp/f\r\n",
        "600 URI Acquire\nURI: r2://b/k\r\nFilename: /tmp/f",
        "600 URI Acquire\n\nfoo:bar\nURI: r2://b/k\n   \nFilename: /tmp/f\nrest\n\n",
        "600 URI Acquire\r\n:\r\nURI: r2://b/k\r\n\r\nFilename: /tmp/f\r\n\r\n",
    ] {
        let msg = Message::parse(input).unwrap();
        assert_eq!(msg.code, plain.code);
        assert_eq!(msg.description, plain.description);
        assert_eq!(part_fields(&msg), part_fields(&plain));
    }
    assert!(Message::parse("\n").is_none());
    assert!(Message::parse("600\r\nURI: r2://b/k\r\n").is_none());
}

#[test]
fn different_messages_are_written_differently() {
    let messages: [(u32, &str, &[(&str, &str)]); 8] = [
        (1, "", &[]),
        (1, " ", &[]),
        (11, "", &[]),
        (1, "", &[("", "")]),
        (1, "", &[("a", "b"), ("c", "d")]),
        (1, "", &[("c", "d"), ("a", "b")]),
        (1, "", &[("a", " b"), ("c", "d")]),
        (1, "", &[("a:", "b"), ("c", "d")]),
    ];
    for (i, a) in messages.iter().enumerate() {
        for (j, b) in messages.iter().enumerate() {
            let same = Message::format(a.0, a.1, a.2) == Message::format(b.0, b.1, b.2);
            assert_eq!(same, i == j);
        }
    }
    // A name with a colon and a space in it is not told apart.
    assert_eq!(
        Message::format(1, "", &[("a", "b: c")]),
        Message::format(1, "", &[("a: b", "c")])
    );
}

#[test]
fn adjacent_lines_with_different_names_may_be_exchanged() {
    let first = Message::parse("600 X\nA: 1\nB: 2\nA: 3\nnothing\nC: 4\n").unwrap();
    for input in [
        "600 X\nB: 2\nA: 1\nA: 3\nnothing\nC: 4\n",
        "600 X\nA: 1\nA: 3\nB: 2\nnothing\nC: 4\n",
        "600 X\nA: 1\nB: 2\nA: 3\nC: 4\nnothing\n",
    ] {
        let other = Message::parse(input).unwrap();
        assert_eq!(other.description, "X");
        assert_eq!(other.fields.len(), 3);
        for name in ["A", "B", "C"] {
            assert_eq!(other.fields.get(name), first.fields.get(name));
        }
    }
    // Lines with the same name may not.
    let swapped = Message::parse("600 X\nA: 3\nA: 1\n").unwrap();
    assert_eq!(swapped.fields.get("A").unwrap(), "3\n1");
}
