//! Writing a message out again after it was read.

use vstd::prelude::*;

use crate::fields::{
    add_field, continued, lemma_add_field_distinct, lemma_name_from, lookup, name_from,
    names_distinct, same_fields,
};
use crate::message::{MessageView, add_line, fields_of, format_spec, parse_spec};
use crate::roundtrip::{
    are_field_lines, collected, is_field_name, is_single_line, lemma_first_feed, lemma_first_line,
    lemma_no_feed, lemma_parse_format, lemma_split_line,
};
use crate::text::{
    chomp, find_from, lemma_find_from, lines_spec, occurs, split_once_spec, trim_spec,
};
use crate::text_laws::lemma_trimmed;

verus! {

/// The parts of a value: what stands between its line feeds.
pub open spec fn parts(value: Seq<char>) -> Seq<Seq<char>>
    decreases value.len(),
{
    match split_once_spec(value, seq!['\n']) {
        Some((part, rest)) => {
            proof {
                lemma_find_from(value, seq!['\n'], 0);
            }
            seq![part] + parts(rest)
        },
        None => seq![value],
    }
}

/// The fields that write a field out, one for each part of its value.
pub open spec fn part_fields(field: (Seq<char>, Seq<char>)) -> Seq<(Seq<char>, Seq<char>)> {
    Seq::new(parts(field.1).len(), |i: int| (field.0, parts(field.1)[i]))
}

/// The fields that write fields out, one for each part of each value.
pub open spec fn all_part_fields(fields: Seq<(Seq<char>, Seq<char>)>) -> Seq<
    (Seq<char>, Seq<char>),
>
    decreases fields.len(),
{
    if fields.len() == 0 {
        seq![]
    } else {
        all_part_fields(fields.drop_last()) + part_fields(fields.last())
    }
}

/// What values come to that come in one after the other for the same name.
spec fn absorbed(values: Seq<Seq<char>>) -> Seq<char>
    decreases values.len(),
{
    if values.len() == 0 {
        seq![]
    } else {
        continued(absorbed(values.drop_last()), values.last())
    }
}

/// A name that reading can bring: it can stand in a line, and has nothing to trim.
spec fn is_read_name(name: Seq<char>) -> bool {
    is_field_name(name) && trim_spec(name) == name
}

/// A part of a value that reading can bring: one line with nothing to trim.
spec fn is_read_part(part: Seq<char>) -> bool {
    is_single_line(part) && trim_spec(part) == part
}

/// A value that reading can bring: its parts come to it.
spec fn is_read_value(value: Seq<char>) -> bool {
    &&& absorbed(parts(value)) == value
    &&& forall|i: int| 0 <= i < parts(value).len() ==> is_read_part(#[trigger] parts(value)[i])
}

/// Fields that reading can bring.
spec fn are_read(fields: Seq<(Seq<char>, Seq<char>)>) -> bool {
    forall|i: int|
        0 <= i < fields.len() ==> is_read_name((#[trigger] fields[i]).0) && is_read_value(
            fields[i].1,
        )
}

// ---------------------------------------------------------------------------
// What reading brings

/// The lines of a text hold no line feed.
proof fn lemma_lines_are_single(s: Seq<char>)
    ensures
        forall|i: int| 0 <= i < lines_spec(s).len() ==> is_single_line(#[trigger] lines_spec(s)[i]),
    decreases s.len(),
{
    if s.len() == 0 {
    } else if is_single_line(s) {
        lemma_no_feed(s);
        assert(lines_spec(s) =~= seq![s]);
    } else {
        let (head, tail) = lemma_first_feed(s);
        lemma_first_line(head, tail);
        lemma_lines_are_single(tail);
        assert forall|i: int| 0 <= i < lines_spec(s).len() implies is_single_line(
            #[trigger] lines_spec(s)[i],
        ) by {
            if i == 0 {
                assert(lines_spec(s)[0] == chomp(head));
            } else {
                assert(lines_spec(s)[i] == lines_spec(tail)[i - 1]);
            }
        }
    }
}

/// A value without a line feed is its own only part.
proof fn lemma_only_part(value: Seq<char>)
    requires
        is_single_line(value),
    ensures
        parts(value) == seq![value],
{
    lemma_no_feed(value);
}

/// What stands before the first line feed of a value is its first part.
proof fn lemma_first_part(part: Seq<char>, rest: Seq<char>)
    requires
        is_single_line(part),
    ensures
        parts(part + seq!['\n'] + rest) == seq![part] + parts(rest),
{
    lemma_split_line(part, rest);
}

/// A line that continues a value is one more part of it.
proof fn lemma_last_part(value: Seq<char>, part: Seq<char>)
    requires
        is_single_line(part),
    ensures
        parts(value.push('\n') + part) == parts(value).push(part),
    decreases value.len(),
{
    let longer = value.push('\n') + part;
    lemma_only_part(part);
    if is_single_line(value) {
        lemma_only_part(value);
        lemma_first_part(value, part);
        assert(longer =~= value + seq!['\n'] + part);
        assert(parts(longer) =~= parts(value).push(part));
    } else {
        let (head, tail) = lemma_first_feed(value);
        lemma_last_part(tail, part);
        lemma_first_part(head, tail);
        lemma_first_part(head, tail.push('\n') + part);
        assert(longer =~= head + seq!['\n'] + (tail.push('\n') + part));
        assert(parts(longer) =~= parts(value).push(part));
    }
}

/// A part by itself is a value that reading can bring.
proof fn lemma_part_is_value(part: Seq<char>)
    requires
        is_read_part(part),
    ensures
        is_read_value(part),
{
    lemma_only_part(part);
    assert(seq![part].drop_last() =~= seq![]);
    assert(absorbed(seq![part].drop_last()) =~= seq![]);
}

/// A value that reading can bring stays one when a part continues it.
proof fn lemma_continued_is_read(value: Seq<char>, part: Seq<char>)
    requires
        is_read_value(value),
        is_read_part(part),
    ensures
        is_read_value(continued(value, part)),
{
    if value.len() == 0 {
        lemma_part_is_value(part);
    } else {
        let longer = continued(value, part);
        lemma_last_part(value, part);
        assert(parts(longer).drop_last() =~= parts(value));
        assert forall|i: int| 0 <= i < parts(longer).len() implies is_read_part(
            #[trigger] parts(longer)[i],
        ) by {
            if i < parts(value).len() {
                assert(parts(longer)[i] == parts(value)[i]);
            }
        }
    }
}

/// Reading a line keeps fields such as reading can bring.
proof fn lemma_add_line_is_read(fields: Seq<(Seq<char>, Seq<char>)>, line: Seq<char>)
    requires
        are_read(fields),
        names_distinct(fields),
        is_single_line(line),
    ensures
        are_read(add_line(fields, line)),
        names_distinct(add_line(fields, line)),
{
    let mark = seq![':', ' '];
    lemma_find_from(line, mark, 0);
    match find_from(line, mark, 0) {
        Some(at) => {
            let whole = line.take(at);
            let tail = line.skip(at + 2);
            let name = trim_spec(whole);
            let part = trim_spec(tail);
            let (a, b) = lemma_trimmed(whole);
            let (c, d) = lemma_trimmed(tail);
            assert forall|i: int| !occurs(name, mark, i) by {
                if occurs(name, mark, i) {
                    assert(name.subrange(i, i + 2) =~= line.subrange(a + i, a + i + 2));
                    assert(occurs(line, mark, a + i));
                }
            }
            assert(is_read_name(name));
            assert(is_read_part(part));
            lemma_part_is_value(part);
            lemma_name_from(fields, name, 0);
            lemma_add_field_distinct(fields, name, part);
            let added = add_field(fields, name, part);
            if let Some(i) = name_from(fields, name, 0) {
                assert(is_read_value(fields[i].1));
                lemma_continued_is_read(fields[i].1, part);
            }
            assert forall|i: int| 0 <= i < added.len() implies is_read_name(
                (#[trigger] added[i]).0,
            ) && is_read_value(added[i].1) by {
                if i < fields.len() {
                    assert(is_read_name(fields[i].0) && is_read_value(fields[i].1));
                }
            }
        },
        None => {},
    }
}

/// Reading brings names and values that can be written out again.
proof fn lemma_fields_of_is_read(body: Seq<Seq<char>>)
    requires
        forall|i: int| 0 <= i < body.len() ==> is_single_line(#[trigger] body[i]),
    ensures
        are_read(fields_of(body)),
        names_distinct(fields_of(body)),
    decreases body.len(),
{
    if body.len() > 0 {
        let init = body.drop_last();
        assert forall|i: int| 0 <= i < init.len() implies is_single_line(#[trigger] init[i]) by {
            assert(init[i] == body[i]);
        }
        lemma_fields_of_is_read(init);
        assert(is_single_line(body[body.len() - 1]));
        lemma_add_line_is_read(fields_of(init), body.last());
    }
}

// ---------------------------------------------------------------------------
// Writing out and reading again

/// Reading collects the parts of a new field into its value.
proof fn lemma_collected_parts(
    before: Seq<(Seq<char>, Seq<char>)>,
    known: Seq<(Seq<char>, Seq<char>)>,
    name: Seq<char>,
    values: Seq<Seq<char>>,
)
    requires
        collected(before) == known,
        name_from(known, name, 0) is None,
        trim_spec(name) == name,
        values.len() > 0,
        forall|i: int| 0 <= i < values.len() ==> is_read_part(#[trigger] values[i]),
    ensures
        collected(before + Seq::new(values.len(), |i: int| (name, values[i]))) == known.push(
            (name, absorbed(values)),
        ),
    decreases values.len(),
{
    let init = values.drop_last();
    let last = values[values.len() - 1];
    let written = before + Seq::new(values.len(), |i: int| (name, values[i]));
    assert(is_read_part(last));
    assert(written.last() == (name, last));
    assert(written.drop_last() =~= before + Seq::new(init.len(), |i: int| (name, init[i])));
    if init.len() == 0 {
        assert(written.drop_last() =~= before);
        assert(absorbed(init) =~= seq![]);
        assert(absorbed(values) == last);
    } else {
        assert forall|i: int| 0 <= i < init.len() implies is_read_part(#[trigger] init[i]) by {
            assert(init[i] == values[i]);
        }
        lemma_collected_parts(before, known, name, init);
        let so_far = known.push((name, absorbed(init)));
        let n = known.len() as int;
        lemma_name_from(known, name, 0);
        lemma_name_from(so_far, name, 0);
        assert(so_far[n].0 == name);
        assert forall|j: int| 0 <= j < n implies so_far[j].0 != name by {
            assert(so_far[j] == known[j]);
        }
        assert(name_from(so_far, name, 0) == Some(n));
        assert(add_field(so_far, name, last) =~= known.push((name, absorbed(values))));
    }
}

/// Fields that reading can bring are read again as they were written out.
proof fn lemma_collected_again(fields: Seq<(Seq<char>, Seq<char>)>)
    requires
        are_read(fields),
        names_distinct(fields),
    ensures
        collected(all_part_fields(fields)) == fields,
        are_field_lines(all_part_fields(fields)),
    decreases fields.len(),
{
    let written = all_part_fields(fields);
    if fields.len() == 0 {
        assert(collected(written) =~= fields);
    } else {
        let init = fields.drop_last();
        let last = fields[fields.len() - 1];
        let before = all_part_fields(init);
        assert forall|i: int| 0 <= i < init.len() implies is_read_name((#[trigger] init[i]).0)
            && is_read_value(init[i].1) by {
            assert(init[i] == fields[i]);
        }
        lemma_collected_again(init);
        assert(is_read_name(last.0) && is_read_value(last.1));
        lemma_name_from(init, last.0, 0);
        lemma_collected_parts(before, init, last.0, parts(last.1));
        assert(init.push(last) =~= fields);
        assert forall|i: int| 0 <= i < written.len() implies is_field_name(#[trigger] written[i].0)
            && is_single_line(written[i].1) by {
            if i < before.len() {
                assert(written[i] == before[i]);
                assert(is_field_name(before[i].0));
            } else {
                assert(written[i] == (last.0, parts(last.1)[i - before.len()]));
                assert(is_read_part(parts(last.1)[i - before.len()]));
            }
        }
    }
}

/// Fields that hold the same values as fields that reading can bring are such
/// themselves.
proof fn lemma_same_fields_are_read(
    order: Seq<(Seq<char>, Seq<char>)>,
    fields: Seq<(Seq<char>, Seq<char>)>,
)
    requires
        same_fields(order, fields),
        are_read(fields),
    ensures
        are_read(order),
{
    assert forall|i: int| 0 <= i < order.len() implies is_read_name((#[trigger] order[i]).0)
        && is_read_value(order[i].1) by {
        let name = order[i].0;
        lemma_name_from(order, name, 0);
        lemma_name_from(fields, name, 0);
        assert(lookup(order, name) == lookup(fields, name));
        let k = name_from(order, name, 0)->0;
        assert(order[k].0 == order[i].0);
        assert(k == i);
        let j = name_from(fields, name, 0)->0;
        assert(is_read_name(fields[j].0) && is_read_value(fields[j].1));
    }
}

/// A message that was read, and is written out again with one line for each part of
/// each value, reads as itself, in whatever order its names are written. The
/// exception is a description that ends in a carriage return: that would be lost
/// in the line ending.
pub proof fn law_read_again(input: Seq<char>, order: Seq<(Seq<char>, Seq<char>)>)
    requires
        parse_spec(input) matches Some(message) && {
            &&& message.description.len() > 0 ==> message.description.last() != '\r'
            &&& same_fields(order, message.fields)
        },
    ensures
        parse_spec(input) matches Some(message) && parse_spec(
            format_spec(message.code, message.description, all_part_fields(order)),
        ) == Some(
            MessageView { code: message.code, description: message.description, fields: order },
        ),
{
    let message = parse_spec(input)->0;
    let all = lines_spec(input);
    let body = all.skip(1);
    lemma_lines_are_single(input);
    assert(is_single_line(all[0]));
    lemma_find_from(all[0], seq![' '], 0);
    assert forall|i: int| 0 <= i < body.len() implies is_single_line(#[trigger] body[i]) by {
        assert(body[i] == all[i + 1]);
    }
    lemma_fields_of_is_read(body);
    lemma_same_fields_are_read(order, message.fields);
    lemma_collected_again(order);
    lemma_parse_format(message.code, message.description, all_part_fields(order));
}

/// Fields hold the same values as themselves, when each name occurs once. So a
/// message that was read can be written out again in its own order, and is then
/// read exactly as before.
pub proof fn law_read_again_in_order(input: Seq<char>)
    requires
        parse_spec(input) matches Some(message) && (message.description.len() > 0
            ==> message.description.last() != '\r'),
    ensures
        parse_spec(input) matches Some(message) && parse_spec(
            format_spec(message.code, message.description, all_part_fields(message.fields)),
        ) == Some(message),
{
    let message = parse_spec(input)->0;
    let all = lines_spec(input);
    let body = all.skip(1);
    lemma_lines_are_single(input);
    assert forall|i: int| 0 <= i < body.len() implies is_single_line(#[trigger] body[i]) by {
        assert(body[i] == all[i + 1]);
    }
    lemma_fields_of_is_read(body);
    law_read_again(input, message.fields);
}

} // verus!
