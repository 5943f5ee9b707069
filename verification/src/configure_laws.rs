//! What does not matter to the configuration of a transport.

use vstd::prelude::*;

use crate::config::{config_items_spec, is_config_field, last_value, line_items, settings_spec};
use crate::config_laws::law_letter_case;
use crate::text::{lines_spec, lowercase_spec, same_ignoring_ascii_case, split_once_spec};
use crate::transport::{TransportView, configure_spec};

verus! {

/// The lines of the configuration fields, one field after the other.
pub open spec fn config_lines(fields: Seq<(Seq<char>, Seq<char>)>) -> Seq<Seq<char>>
    decreases fields.len(),
{
    if fields.len() == 0 {
        seq![]
    } else {
        let before = config_lines(fields.drop_last());
        if is_config_field(fields.last().0) {
            before + lines_spec(fields.last().1)
        } else {
            before
        }
    }
}

/// The items of lines are those of the first lines and those of the others.
proof fn lemma_line_items_concat(a: Seq<Seq<char>>, b: Seq<Seq<char>>)
    ensures
        line_items(a + b) == line_items(a) + line_items(b),
    decreases b.len(),
{
    if b.len() == 0 {
        assert(a + b =~= a);
        assert(line_items(a) + line_items(b) =~= line_items(a));
    } else {
        lemma_line_items_concat(a, b.drop_last());
        assert((a + b).drop_last() =~= a + b.drop_last());
        assert(line_items(a + b) =~= line_items(a) + line_items(b));
    }
}

/// The items that fields hold are those of their configuration lines.
proof fn lemma_config_lines(fields: Seq<(Seq<char>, Seq<char>)>)
    ensures
        config_items_spec(fields) == line_items(config_lines(fields)),
    decreases fields.len(),
{
    if fields.len() > 0 {
        let init = fields.drop_last();
        lemma_config_lines(init);
        lemma_line_items_concat(config_lines(init), lines_spec(fields.last().1));
    }
}

// ---------------------------------------------------------------------------
// Letter case

/// The two lines are the same, or hold the same value under option names that
/// differ in the case of ASCII letters alone.
pub open spec fn same_line_but_case(a: Seq<char>, b: Seq<char>) -> bool {
    ||| a == b
    ||| match (split_once_spec(a, seq!['=']), split_once_spec(b, seq!['='])) {
        (Some((name_a, value_a)), Some((name_b, value_b))) => {
            &&& value_a == value_b
            &&& same_ignoring_ascii_case(name_a, name_b)
        },
        _ => false,
    }
}

/// The two fields are the same, or hold configuration items in lines that differ in
/// the letter case of their option names alone. The names of such fields may differ
/// in letter case too.
pub open spec fn same_field_but_case(
    a: (Seq<char>, Seq<char>),
    b: (Seq<char>, Seq<char>),
) -> bool {
    ||| a == b
    ||| {
        let (lines_a, lines_b) = (lines_spec(a.1), lines_spec(b.1));
        &&& is_config_field(a.0) && is_config_field(b.0)
        &&& lines_a.len() == lines_b.len()
        &&& forall|i: int|
            0 <= i < lines_a.len() ==> same_line_but_case(
                #[trigger] lines_a[i],
                #[trigger] lines_b[i],
            )
    }
}

/// The fields differ at most in the letter case of the names of configuration
/// fields, and of the option names in them.
pub open spec fn same_but_case(
    a: Seq<(Seq<char>, Seq<char>)>,
    b: Seq<(Seq<char>, Seq<char>)>,
) -> bool {
    &&& a.len() == b.len()
    &&& forall|i: int|
        0 <= i < a.len() ==> same_field_but_case(#[trigger] a[i], #[trigger] b[i])
}

/// Lines that differ in the letter case of option names alone hold the same items.
proof fn lemma_items_but_case(a: Seq<Seq<char>>, b: Seq<Seq<char>>)
    requires
        a.len() == b.len(),
        forall|i: int|
            0 <= i < a.len() ==> same_line_but_case(#[trigger] a[i], #[trigger] b[i]),
    ensures
        line_items(a) == line_items(b),
    decreases a.len(),
{
    if a.len() > 0 {
        let end = a.len() - 1;
        let (init_a, init_b) = (a.drop_last(), b.drop_last());
        assert forall|i: int| 0 <= i < init_a.len() implies same_line_but_case(
            #[trigger] init_a[i],
            #[trigger] init_b[i],
        ) by {
            assert(init_a[i] == a[i] && init_b[i] == b[i]);
        }
        lemma_items_but_case(init_a, init_b);
        assert(same_line_but_case(a[end], b[end]));
        if a[end] != b[end] {
            let name_a = (split_once_spec(a[end], seq!['='])->0).0;
            let name_b = (split_once_spec(b[end], seq!['='])->0).0;
            law_letter_case(name_a, name_b);
        }
    } else {
        assert(a =~= b);
    }
}

/// Fields that differ in letter case alone hold the same items.
proof fn lemma_config_items_but_case(
    a: Seq<(Seq<char>, Seq<char>)>,
    b: Seq<(Seq<char>, Seq<char>)>,
)
    requires
        same_but_case(a, b),
    ensures
        config_items_spec(a) == config_items_spec(b),
    decreases a.len(),
{
    if a.len() > 0 {
        let end = a.len() - 1;
        let (init_a, init_b) = (a.drop_last(), b.drop_last());
        assert forall|i: int| 0 <= i < init_a.len() implies same_field_but_case(
            #[trigger] init_a[i],
            #[trigger] init_b[i],
        ) by {
            assert(init_a[i] == a[i] && init_b[i] == b[i]);
        }
        lemma_config_items_but_case(init_a, init_b);
        assert(same_field_but_case(a[end], b[end]));
        if a[end] != b[end] {
            lemma_items_but_case(lines_spec(a[end].1), lines_spec(b[end].1));
        }
    } else {
        assert(a =~= b);
    }
}

/// The case of ASCII letters in the name of a configuration field and in option
/// names changes neither the result of a configuration nor the transport.
pub proof fn law_configure_ignores_case(
    transport: TransportView,
    a: Seq<(Seq<char>, Seq<char>)>,
    b: Seq<(Seq<char>, Seq<char>)>,
)
    requires
        same_but_case(a, b),
    ensures
        configure_spec(transport, a) == configure_spec(transport, b),
{
    lemma_config_items_but_case(a, b);
}

// ---------------------------------------------------------------------------
// Other fields, lines and options

/// The option is one of the four settings.
pub open spec fn is_setting_name(name: Seq<char>) -> bool {
    ||| name == "acquire::r2::accesskeyid"@
    ||| name == "acquire::r2::secretaccesskey"@
    ||| name == "acquire::r2::endpointurl"@
    ||| name == "acquire::r2::bucket"@
}

/// The line holds an item of one of the four settings.
pub open spec fn is_setting_line(line: Seq<char>) -> bool {
    match split_once_spec(line, seq!['=']) {
        Some((name, _)) => is_setting_name(lowercase_spec(name)),
        None => false,
    }
}

/// The configuration fields hold the same lines of settings, in the same order. The
/// fields may differ in all else: in other fields, in lines without an equals sign
/// and in lines with other options.
pub open spec fn same_setting_lines(
    a: Seq<(Seq<char>, Seq<char>)>,
    b: Seq<(Seq<char>, Seq<char>)>,
) -> bool {
    config_lines(a).filter(|line: Seq<char>| is_setting_line(line)) == config_lines(b).filter(
        |line: Seq<char>| is_setting_line(line),
    )
}

/// Lines that hold no setting do not change the value of one.
proof fn lemma_setting_lines(lines: Seq<Seq<char>>, name: Seq<char>)
    requires
        is_setting_name(name),
    ensures
        last_value(line_items(lines), name) == last_value(
            line_items(lines.filter(|line: Seq<char>| is_setting_line(line))),
            name,
        ),
    decreases lines.len(),
{
    let keep = |line: Seq<char>| is_setting_line(line);
    reveal(Seq::filter);
    if lines.len() > 0 {
        let init = lines.drop_last();
        let last = lines.last();
        let kept = init.filter(keep);
        lemma_setting_lines(init, name);
        if keep(last) {
            assert(lines.filter(keep) == kept.push(last));
            assert(kept.push(last).drop_last() =~= kept);
            let item = split_once_spec(last, seq!['='])->0;
            let folded = (lowercase_spec(item.0), item.1);
            assert(line_items(init).push(folded).drop_last() =~= line_items(init));
            assert(line_items(kept).push(folded).drop_last() =~= line_items(kept));
        } else {
            assert(lines.filter(keep) == kept);
            if let Some(item) = split_once_spec(last, seq!['=']) {
                let folded = (lowercase_spec(item.0), item.1);
                assert(line_items(init).push(folded).drop_last() =~= line_items(init));
            }
        }
    }
}

/// The settings that fields hold are those of their lines of settings.
proof fn lemma_settings_of_lines(fields: Seq<(Seq<char>, Seq<char>)>)
    ensures
        settings_spec(config_items_spec(fields)) == settings_spec(
            line_items(config_lines(fields).filter(|line: Seq<char>| is_setting_line(line))),
        ),
{
    let lines = config_lines(fields);
    lemma_config_lines(fields);
    lemma_setting_lines(lines, "acquire::r2::accesskeyid"@);
    lemma_setting_lines(lines, "acquire::r2::secretaccesskey"@);
    lemma_setting_lines(lines, "acquire::r2::endpointurl"@);
    lemma_setting_lines(lines, "acquire::r2::bucket"@);
}

/// Other fields, lines without an equals sign and options of other names change
/// neither the result of a configuration nor the transport.
pub proof fn law_configure_passes_over(
    transport: TransportView,
    a: Seq<(Seq<char>, Seq<char>)>,
    b: Seq<(Seq<char>, Seq<char>)>,
)
    requires
        same_setting_lines(a, b),
    ensures
        configure_spec(transport, a) == configure_spec(transport, b),
{
    lemma_settings_of_lines(a);
    lemma_settings_of_lines(b);
}

/// A transport is configured from the configuration fields alone.
pub proof fn law_configure_needs_configuration_fields_alone(
    transport: TransportView,
    fields: Seq<(Seq<char>, Seq<char>)>,
)
    ensures
        configure_spec(
            transport,
            fields.filter(|field: (Seq<char>, Seq<char>)| is_config_field(field.0)),
        ) == configure_spec(transport, fields),
{
    lemma_lines_of_configuration_fields(fields);
    law_configure_passes_over(
        transport,
        fields.filter(|field: (Seq<char>, Seq<char>)| is_config_field(field.0)),
        fields,
    );
}

/// The configuration lines are those of the configuration fields alone.
proof fn lemma_lines_of_configuration_fields(fields: Seq<(Seq<char>, Seq<char>)>)
    ensures
        config_lines(fields.filter(|field: (Seq<char>, Seq<char>)| is_config_field(field.0)))
            == config_lines(fields),
    decreases fields.len(),
{
    let keep = |field: (Seq<char>, Seq<char>)| is_config_field(field.0);
    reveal(Seq::filter);
    if fields.len() > 0 {
        let init = fields.drop_last();
        lemma_lines_of_configuration_fields(init);
        if keep(fields.last()) {
            assert(fields.filter(keep) == init.filter(keep).push(fields.last()));
            assert(fields.filter(keep).drop_last() =~= init.filter(keep));
        } else {
            assert(fields.filter(keep) == init.filter(keep));
        }
    }
}

} // verus!
