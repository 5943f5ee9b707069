//! What becomes of configuration items on their way from APT to the settings.

use vstd::prelude::*;

use crate::config::{
    ConfigError, SettingsView, config_items_spec, is_config_field, last_value, line_items,
};
use crate::fields::{continued, name_from};
use crate::message::MessageView;
use crate::reply::general_failure_spec;
use crate::roundtrip::{
    are_field_lines, collected, is_field_name, is_single_line, lemma_first_feed, lemma_first_line,
    lemma_no_feed,
};
use crate::session::{NextView, StepView, act_spec, silent};
use crate::text::{
    ascii_lower, ascii_lowercase, is_whitespace, lemma_find_is_first, lines_spec, lowercase_spec,
    occurs, same_ignoring_ascii_case, split_once_spec, trim_spec,
};
use crate::transport::{TransportView, configured};

verus! {

/// A configuration item as APT writes it.
pub open spec fn item_text(item: (Seq<char>, Seq<char>)) -> Seq<char> {
    item.0 + seq!['='] + item.1
}

/// The fields that carry configuration items.
pub open spec fn item_fields(items: Seq<(Seq<char>, Seq<char>)>) -> Seq<
    (Seq<char>, Seq<char>),
> {
    Seq::new(items.len(), |i: int| ("Config-Item"@, item_text(items[i])))
}

/// A key that an item can carry: one line without an equals sign that does not
/// begin with white space.
pub open spec fn is_item_key(key: Seq<char>) -> bool {
    &&& is_single_line(key)
    &&& forall|i: int| 0 <= i < key.len() ==> key[i] != '='
    &&& key.len() > 0 ==> !is_whitespace(key[0])
}

/// A value that an item can carry: one line that does not end in white space.
pub open spec fn is_item_value(value: Seq<char>) -> bool {
    &&& is_single_line(value)
    &&& value.len() > 0 ==> !is_whitespace(value.last())
}

/// Items that fields can carry.
pub open spec fn are_items(items: Seq<(Seq<char>, Seq<char>)>) -> bool {
    forall|i: int|
        0 <= i < items.len() ==> is_item_key(#[trigger] items[i].0) && is_item_value(items[i].1)
}

/// Items with their keys in lower case.
pub open spec fn folded(items: Seq<(Seq<char>, Seq<char>)>) -> Seq<(Seq<char>, Seq<char>)> {
    Seq::new(items.len(), |i: int| (lowercase_spec(items[i].0), items[i].1))
}

/// The texts of items.
spec fn item_texts(items: Seq<(Seq<char>, Seq<char>)>) -> Seq<Seq<char>> {
    Seq::new(items.len(), |i: int| item_text(items[i]))
}

/// The texts of items, one per line.
spec fn joined(items: Seq<(Seq<char>, Seq<char>)>) -> Seq<char>
    decreases items.len(),
{
    if items.len() == 0 {
        seq![]
    } else {
        continued(joined(items.drop_last()), item_text(items.last()))
    }
}

/// The items but the last can be carried if all can.
proof fn lemma_init_are_items(items: Seq<(Seq<char>, Seq<char>)>)
    requires
        are_items(items),
        items.len() > 0,
    ensures
        are_items(items.drop_last()),
        is_item_key(items.last().0),
        is_item_value(items.last().1),
{
    let init = items.drop_last();
    assert forall|i: int| 0 <= i < init.len() implies is_item_key(#[trigger] init[i].0)
        && is_item_value(init[i].1) by {
        assert(init[i] == items[i]);
        let item = items[i];
        assert(is_item_key(item.0));
        assert(is_item_value(item.1));
    }
    assert(items.last() == items[items.len() - 1]);
    assert(is_item_key(items[items.len() - 1].0));
}

/// The text of an item is one line with no white space around it.
proof fn lemma_item_text(item: (Seq<char>, Seq<char>))
    requires
        is_item_key(item.0),
        is_item_value(item.1),
    ensures
        is_single_line(item_text(item)),
        item_text(item).len() > 0,
        !is_whitespace(item_text(item).last()),
        trim_spec(item_text(item)) == item_text(item),
        split_once_spec(item_text(item), seq!['=']) == Some(item),
{
    let s = item_text(item);
    let n = item.0.len() as int;
    if item.1.len() == 0 {
        assert(s.last() == '=');
    } else {
        assert(s.last() == item.1.last());
    }
    if n == 0 {
        assert(s[0] == '=');
    } else {
        assert(s[0] == item.0[0]);
    }
    assert(s.subrange(n, n + 1) =~= seq!['=']);
    assert forall|j: int| 0 <= j < n implies !occurs(s, seq!['='], j) by {
        assert(s.subrange(j, j + 1)[0] == item.0[j]);
    }
    lemma_find_is_first(s, seq!['='], 0, n);
    assert(s.take(n) =~= item.0);
    assert(s.skip(n + 1) =~= item.1);
}

/// A text without a line feed is its own only line.
proof fn lemma_only_line(s: Seq<char>)
    requires
        is_single_line(s),
        s.len() > 0,
    ensures
        lines_spec(s) == seq![s],
{
    lemma_no_feed(s);
}

/// A line that is added to a text becomes its last line.
proof fn lemma_lines_add(s: Seq<char>, line: Seq<char>)
    requires
        s.len() > 0,
        !is_whitespace(s.last()),
        is_single_line(line),
        line.len() > 0,
    ensures
        lines_spec(s + seq!['\n'] + line) == lines_spec(s).push(line),
    decreases s.len(),
{
    let longer = s + seq!['\n'] + line;
    lemma_only_line(line);
    if is_single_line(s) {
        lemma_only_line(s);
        lemma_first_line(s, line);
        assert(lines_spec(longer) =~= lines_spec(s).push(line));
    } else {
        let (head, rest) = lemma_first_feed(s);
        assert(rest.len() > 0) by {
            if rest.len() == 0 {
                assert(s.last() == '\n');
            }
        }
        assert(rest.last() == s.last());
        lemma_lines_add(rest, line);
        assert(longer =~= head + seq!['\n'] + (rest + seq!['\n'] + line));
        lemma_first_line(head, rest);
        lemma_first_line(head, rest + seq!['\n'] + line);
        assert(lines_spec(longer) =~= lines_spec(s).push(line));
    }
}

/// Items that are joined are read as the same lines again.
proof fn lemma_joined_lines(items: Seq<(Seq<char>, Seq<char>)>)
    requires
        are_items(items),
    ensures
        lines_spec(joined(items)) == item_texts(items),
        items.len() > 0 ==> joined(items).len() > 0 && !is_whitespace(joined(items).last()),
    decreases items.len(),
{
    if items.len() == 0 {
        assert(lines_spec(joined(items)) =~= item_texts(items));
    } else {
        let init = items.drop_last();
        let last = item_text(items.last());
        lemma_init_are_items(items);
        lemma_joined_lines(init);
        lemma_item_text(items.last());
        assert(item_texts(items) =~= item_texts(init).push(last));
        if init.len() == 0 {
            lemma_only_line(last);
            assert(lines_spec(last) =~= item_texts(items));
        } else {
            assert(joined(items) =~= joined(init) + seq!['\n'] + last);
            lemma_lines_add(joined(init), last);
        }
    }
}

/// Lines that are texts of items hold these items.
proof fn lemma_line_items(items: Seq<(Seq<char>, Seq<char>)>)
    requires
        are_items(items),
    ensures
        line_items(item_texts(items)) == folded(items),
    decreases items.len(),
{
    if items.len() == 0 {
        assert(line_items(item_texts(items)) =~= folded(items));
    } else {
        let init = items.drop_last();
        lemma_init_are_items(items);
        lemma_line_items(init);
        lemma_item_text(items.last());
        assert(item_texts(items).drop_last() =~= item_texts(init));
        assert(folded(items) =~= folded(init).push(
            (lowercase_spec(items.last().0), items.last().1),
        ));
    }
}

/// Reading collects the fields of items into one field.
proof fn lemma_item_fields(items: Seq<(Seq<char>, Seq<char>)>)
    requires
        are_items(items),
        items.len() > 0,
    ensures
        collected(item_fields(items)) == seq![("Config-Item"@, joined(items))],
    decreases items.len(),
{
    reveal_strlit("Config-Item");
    let name = "Config-Item"@;
    let init = items.drop_last();
    let last = item_text(items.last());
    let fields = item_fields(items);
    lemma_init_are_items(items);
    lemma_item_text(items.last());
    assert(trim_spec(name) == name);
    assert(fields.drop_last() =~= item_fields(init));
    assert(fields.last() == (name, last));
    if init.len() == 0 {
        assert(collected(fields.drop_last()) =~= seq![]);
        assert(joined(init) =~= seq![]);
        assert(collected(fields) =~= seq![(name, joined(items))]);
    } else {
        lemma_item_fields(init);
        let known = seq![(name, joined(init))];
        assert(name_from(known, name, 0) == Some(0int));
        assert(collected(fields) =~= seq![(name, joined(items))]);
    }
}

/// Configuration items come out of a message as they went in, in their order, with
/// their keys in lower case.
pub proof fn law_config_items(items: Seq<(Seq<char>, Seq<char>)>)
    requires
        are_items(items),
    ensures
        config_items_spec(collected(item_fields(items))) == folded(items),
{
    if items.len() == 0 {
        assert(collected(item_fields(items)) =~= seq![]);
        assert(config_items_spec(collected(item_fields(items))) =~= folded(items));
    } else {
        lemma_item_fields(items);
        lemma_joined_lines(items);
        lemma_line_items(items);
        let fields = seq![("Config-Item"@, joined(items))];
        assert(fields.drop_last() =~= seq![]);
        assert(config_items_spec(fields.drop_last()) =~= seq![]);
        assert(config_items_spec(fields) =~= folded(items));
    }
}

/// Keys that differ in the case of ASCII letters alone are the same key.
pub proof fn law_letter_case(a: Seq<char>, b: Seq<char>)
    requires
        same_ignoring_ascii_case(a, b),
    ensures
        lowercase_spec(a) == lowercase_spec(b),
{
    lemma_folding_keeps_ascii(a);
    lemma_folding_keeps_ascii(b);
}

/// A text is all ASCII exactly when it is so with its ASCII letters in lower case.
proof fn lemma_folding_keeps_ascii(s: Seq<char>)
    ensures
        vstd::utf8::is_ascii_chars(ascii_lowercase(s)) == vstd::utf8::is_ascii_chars(s),
{
    let folded = ascii_lowercase(s);
    if vstd::utf8::is_ascii_chars(folded) {
        assert forall|i: int| 0 <= i < s.len() implies '\0' <= #[trigger] s[i]
            <= '\u{7f}' by {
            assert(folded[i] == ascii_lower(s[i]));
        }
    }
}

/// Position `i` holds the last of the items whose key is `name` in lower case.
pub open spec fn is_last_of(
    items: Seq<(Seq<char>, Seq<char>)>,
    i: int,
    name: Seq<char>,
) -> bool {
    &&& 0 <= i < items.len()
    &&& lowercase_spec(items[i].0) == name
    &&& forall|j: int| i < j < items.len() ==> lowercase_spec(#[trigger] items[j].0) != name
}

/// No item has the key `name` in lower case.
pub open spec fn is_absent(items: Seq<(Seq<char>, Seq<char>)>, name: Seq<char>) -> bool {
    forall|j: int| 0 <= j < items.len() ==> lowercase_spec(#[trigger] items[j].0) != name
}

/// The value of a key is that of the last item with this key.
proof fn lemma_last_value(items: Seq<(Seq<char>, Seq<char>)>, i: int, name: Seq<char>)
    requires
        is_last_of(items, i, name),
    ensures
        last_value(folded(items), name) == Some(items[i].1),
    decreases items.len(),
{
    let init = items.drop_last();
    let end = items.len() - 1;
    assert(folded(items).drop_last() =~= folded(init));
    if i < end {
        assert(lowercase_spec(items[end].0) != name);
        assert forall|j: int| i < j < init.len() implies lowercase_spec(#[trigger] init[j].0)
            != name by {
            assert(init[j].0 == items[j].0);
        }
        lemma_last_value(init, i, name);
    }
}

/// A key without an item has no value.
proof fn lemma_no_value(items: Seq<(Seq<char>, Seq<char>)>, name: Seq<char>)
    requires
        is_absent(items, name),
    ensures
        last_value(folded(items), name) is None,
    decreases items.len(),
{
    if items.len() > 0 {
        let init = items.drop_last();
        assert(folded(items).drop_last() =~= folded(init));
        assert(lowercase_spec(items[items.len() - 1].0) != name);
        assert forall|j: int| 0 <= j < init.len() implies lowercase_spec(#[trigger] init[j].0)
            != name by {
            assert(init[j].0 == items[j].0);
        }
        lemma_no_value(init, name);
    }
}

/// A key that is not absent has a last item.
proof fn lemma_some_value(items: Seq<(Seq<char>, Seq<char>)>, name: Seq<char>)
    requires
        !is_absent(items, name),
    ensures
        last_value(folded(items), name) is Some,
    decreases items.len(),
{
    let init = items.drop_last();
    let end = items.len() - 1;
    assert(folded(items).drop_last() =~= folded(init));
    if lowercase_spec(items[end].0) != name {
        let j = choose|j: int|
            0 <= j < items.len() && lowercase_spec(#[trigger] items[j].0) == name;
        assert(init[j].0 == items[j].0);
        lemma_some_value(init, name);
    }
}

/// The positions in `at` hold the last items of the four settings.
pub open spec fn are_settings(
    items: Seq<(Seq<char>, Seq<char>)>,
    at: (int, int, int, int),
) -> bool {
    &&& is_last_of(items, at.0, "acquire::r2::accesskeyid"@)
    &&& is_last_of(items, at.1, "acquire::r2::secretaccesskey"@)
    &&& is_last_of(items, at.2, "acquire::r2::endpointurl"@)
    &&& is_last_of(items, at.3, "acquire::r2::bucket"@)
}

/// The settings at four positions.
pub open spec fn settings_at(
    items: Seq<(Seq<char>, Seq<char>)>,
    at: (int, int, int, int),
) -> SettingsView {
    SettingsView {
        key_id: items[at.0].1,
        secret: items[at.1].1,
        endpoint: items[at.2].1,
        bucket: items[at.3].1,
    }
}

/// A configuration message whose items hold the four settings, in any order, with
/// keys in any letter case and among any others, sets the transport up with their
/// values, whatever it was set up with before.
pub proof fn law_configuration(
    transport: TransportView,
    description: Seq<char>,
    items: Seq<(Seq<char>, Seq<char>)>,
    at: (int, int, int, int),
)
    requires
        are_items(items),
        are_settings(items, at),
    ensures
        act_spec(
            transport,
            MessageView { code: 601, description, fields: collected(item_fields(items)) },
        ) == (configured(settings_at(items, at)), silent(NextView::Connect)),
{
    law_config_items(items);
    lemma_last_value(items, at.0, "acquire::r2::accesskeyid"@);
    lemma_last_value(items, at.1, "acquire::r2::secretaccesskey"@);
    lemma_last_value(items, at.2, "acquire::r2::endpointurl"@);
    lemma_last_value(items, at.3, "acquire::r2::bucket"@);
}

/// `missing` is the first setting that has no item.
pub open spec fn is_first_absent(
    items: Seq<(Seq<char>, Seq<char>)>,
    missing: ConfigError,
) -> bool {
    let no_key_id = is_absent(items, "acquire::r2::accesskeyid"@);
    let no_secret = is_absent(items, "acquire::r2::secretaccesskey"@);
    let no_endpoint = is_absent(items, "acquire::r2::endpointurl"@);
    let no_bucket = is_absent(items, "acquire::r2::bucket"@);
    match missing {
        ConfigError::AccessKeyId => no_key_id,
        ConfigError::SecretAccessKey => !no_key_id && no_secret,
        ConfigError::EndpointUrl => !no_key_id && !no_secret && no_endpoint,
        ConfigError::Bucket => !no_key_id && !no_secret && !no_endpoint && no_bucket,
    }
}

/// A configuration message without an item for one of the four settings is
/// answered with a general failure that names the first such setting; the session
/// ends, and the transport stays as it was.
pub proof fn law_missing_setting(
    transport: TransportView,
    description: Seq<char>,
    items: Seq<(Seq<char>, Seq<char>)>,
    missing: ConfigError,
)
    requires
        are_items(items),
        is_first_absent(items, missing),
    ensures
        act_spec(
            transport,
            MessageView { code: 601, description, fields: collected(item_fields(items)) },
        ) == (
            transport,
            StepView {
                output: general_failure_spec(missing.message_spec()),
                next: NextView::Stop,
            },
        ),
{
    law_config_items(items);
    lemma_presence(items, "acquire::r2::accesskeyid"@);
    lemma_presence(items, "acquire::r2::secretaccesskey"@);
    lemma_presence(items, "acquire::r2::endpointurl"@);
    lemma_presence(items, "acquire::r2::bucket"@);
}

/// A key has a value exactly when it is not absent.
proof fn lemma_presence(items: Seq<(Seq<char>, Seq<char>)>, name: Seq<char>)
    ensures
        last_value(folded(items), name) is None <==> is_absent(items, name),
{
    if is_absent(items, name) {
        lemma_no_value(items, name);
    } else {
        lemma_some_value(items, name);
    }
}

/// The fields that carry items can be written as lines.
pub proof fn lemma_item_fields_are_lines(items: Seq<(Seq<char>, Seq<char>)>)
    requires
        are_items(items),
    ensures
        are_field_lines(item_fields(items)),
{
    reveal_strlit("Config-Item");
    let name = "Config-Item"@;
    let mark = seq![':', ' '];
    let fields = item_fields(items);
    assert(name =~= seq!['C', 'o', 'n', 'f', 'i', 'g', '-', 'I', 't', 'e', 'm']);
    assert forall|i: int| !occurs(name, mark, i) by {
        if occurs(name, mark, i) {
            assert(name.subrange(i, i + 2)[0] == mark[0]);
            assert(name[i] == ':');
        }
    }
    assert forall|i: int| 0 <= i < fields.len() implies is_field_name(#[trigger] fields[i].0)
        && is_single_line(fields[i].1) by {
        let item = items[i];
        assert(is_item_key(item.0));
        lemma_item_text(item);
    }
}

/// Where one field alone holds configuration items, it does not matter where it
/// stands among the others.
pub proof fn law_one_config_field(fields: Seq<(Seq<char>, Seq<char>)>, at: int)
    requires
        0 <= at < fields.len(),
        forall|i: int| 0 <= i < fields.len() ==> (is_config_field(#[trigger] fields[i].0) <==> i == at),
    ensures
        config_items_spec(fields) == line_items(lines_spec(fields[at].1)),
    decreases fields.len(),
{
    let init = fields.drop_last();
    let last = fields[fields.len() - 1];
    if at == fields.len() - 1 {
        assert forall|i: int| 0 <= i < init.len() implies !is_config_field(#[trigger] init[i].0) by {
            assert(init[i] == fields[i]);
            assert(!is_config_field(fields[i].0));
        }
        lemma_no_config_field(init);
        assert(is_config_field(last.0));
        assert(config_items_spec(fields) =~= line_items(lines_spec(fields[at].1)));
    } else {
        assert forall|i: int| 0 <= i < init.len() implies (is_config_field(#[trigger] init[i].0)
            <==> i == at) by {
            assert(init[i] == fields[i]);
            assert(is_config_field(fields[i].0) <==> i == at);
        }
        law_one_config_field(init, at);
        assert(!is_config_field(last.0));
    }
}

/// Fields without configuration items hold none.
proof fn lemma_no_config_field(fields: Seq<(Seq<char>, Seq<char>)>)
    requires
        forall|i: int| 0 <= i < fields.len() ==> !is_config_field(#[trigger] fields[i].0),
    ensures
        config_items_spec(fields) == Seq::<(Seq<char>, Seq<char>)>::empty(),
    decreases fields.len(),
{
    if fields.len() > 0 {
        let init = fields.drop_last();
        assert forall|i: int| 0 <= i < init.len() implies !is_config_field(#[trigger] init[i].0) by {
            assert(init[i] == fields[i]);
            assert(!is_config_field(fields[i].0));
        }
        lemma_no_config_field(init);
        assert(!is_config_field(fields[fields.len() - 1].0));
    }
}

} // verus!
