//! Reading a message back from its own text.

use vstd::prelude::*;

use crate::fields::{add_field, lemma_name_from, names_distinct};
use crate::message::{
    MessageView, add_line, field_text, fields_of, fields_text, format_spec, parse_spec,
    status_text,
};
use crate::text::{
    chomp, decimal_spec, find_from, is_digit, is_whitespace, lemma_decimal_value, lemma_find_from,
    lemma_find_is_first, lines_spec, occurs, parse_u32_spec, split_once_spec, trim_spec, trim_start,
};

verus! {

/// The text holds no line feed.
pub open spec fn is_single_line(s: Seq<char>) -> bool {
    forall|i: int| 0 <= i < s.len() ==> s[i] != '\n'
}

/// A description that a status line can carry: one line that does not end in a
/// carriage return.
pub open spec fn is_description(s: Seq<char>) -> bool {
    is_single_line(s) && (s.len() > 0 ==> s.last() != '\r')
}

/// A name that a field line can carry: one line without a colon and a space
/// next to each other.
pub open spec fn is_field_name(s: Seq<char>) -> bool {
    is_single_line(s) && forall|i: int| !occurs(s, seq![':', ' '], i)
}

/// Fields that field lines can carry.
pub open spec fn are_field_lines(fields: Seq<(Seq<char>, Seq<char>)>) -> bool {
    forall|i: int|
        0 <= i < fields.len() ==> is_field_name(#[trigger] fields[i].0) && is_single_line(
            fields[i].1,
        )
}

/// What fields come to when they are read one after the other: names and values
/// lose the white space around them, and values of the same name are joined.
pub open spec fn collected(fields: Seq<(Seq<char>, Seq<char>)>) -> Seq<(Seq<char>, Seq<char>)>
    decreases fields.len(),
{
    if fields.len() == 0 {
        seq![]
    } else {
        add_field(
            collected(fields.drop_last()),
            trim_spec(fields.last().0),
            trim_spec(fields.last().1),
        )
    }
}

/// A text without a line feed is not split at one.
pub proof fn lemma_no_feed(s: Seq<char>)
    requires
        is_single_line(s),
    ensures
        split_once_spec(s, seq!['\n']) is None,
{
    let feed = seq!['\n'];
    lemma_find_from(s, feed, 0);
    if let Some(i) = find_from(s, feed, 0) {
        assert(s.subrange(i, i + 1)[0] == '\n');
    }
}

/// A text that begins with a whole line is split at the end of that line.
pub proof fn lemma_split_line(line: Seq<char>, rest: Seq<char>)
    requires
        is_single_line(line),
    ensures
        split_once_spec(line + seq!['\n'] + rest, seq!['\n']) == Some((line, rest)),
{
    let s = line + seq!['\n'] + rest;
    let n = line.len() as int;
    assert(s.subrange(n, n + 1) =~= seq!['\n']);
    assert forall|j: int| 0 <= j < n implies !occurs(s, seq!['\n'], j) by {
        assert(s.subrange(j, j + 1)[0] == line[j]);
    }
    lemma_find_is_first(s, seq!['\n'], 0, n);
    assert(s.take(n) =~= line);
    assert(s.skip(n + 1) =~= rest);
}

/// A text with a line feed, taken apart at the first one.
pub proof fn lemma_first_feed(s: Seq<char>) -> (halves: (Seq<char>, Seq<char>))
    requires
        !is_single_line(s),
    ensures
        is_single_line(halves.0),
        s == halves.0 + seq!['\n'] + halves.1,
        halves.1.len() < s.len(),
{
    let feed = seq!['\n'];
    lemma_find_from(s, feed, 0);
    let k = choose|k: int| 0 <= k < s.len() && s[k] == '\n';
    assert(s.subrange(k, k + 1) =~= feed);
    assert(occurs(s, feed, k));
    let i = find_from(s, feed, 0)->0;
    assert(s.subrange(i, i + 1)[0] == '\n');
    let head = s.take(i);
    let tail = s.skip(i + 1);
    assert forall|j: int| 0 <= j < head.len() implies head[j] != '\n' by {
        if s[j] == '\n' {
            assert(s.subrange(j, j + 1) =~= feed);
            assert(occurs(s, feed, j));
        }
    }
    assert(s =~= head + feed + tail);
    (head, tail)
}

/// A status line is split at the space behind its number.
pub proof fn lemma_split_status(code: u32, description: Seq<char>)
    ensures
        split_once_spec(decimal_spec(code as nat) + seq![' '] + description, seq![' ']) == Some(
            (decimal_spec(code as nat), description),
        ),
        is_single_line(decimal_spec(code as nat)),
{
    let number = decimal_spec(code as nat);
    let line = number + seq![' '] + description;
    let n = number.len() as int;
    lemma_decimal_value(code as nat);
    assert(line.subrange(n, n + 1) =~= seq![' ']);
    assert forall|j: int| 0 <= j < n implies !occurs(line, seq![' '], j) by {
        assert(is_digit(number[j]));
        assert(line.subrange(j, j + 1)[0] == number[j]);
    }
    lemma_find_is_first(line, seq![' '], 0, n);
    assert(line.take(n) =~= number);
    assert(line.skip(n + 1) =~= description);
}

/// A field line is split at the colon and the space behind its name.
pub proof fn lemma_split_field(field: (Seq<char>, Seq<char>))
    requires
        is_field_name(field.0),
    ensures
        split_once_spec(field.0 + seq![':', ' '] + field.1, seq![':', ' ']) == Some(field),
{
    let mark = seq![':', ' '];
    let line = field.0 + mark + field.1;
    let n = field.0.len() as int;
    assert(line.subrange(n, n + 2) =~= mark);
    assert forall|j: int| 0 <= j < n implies !occurs(line, mark, j) by {
        let window = line.subrange(j, j + 2);
        assert(mark[0] == ':' && mark[1] == ' ');
        if j + 1 < n {
            assert(!occurs(field.0, mark, j));
            assert(window =~= field.0.subrange(j, j + 2));
        } else {
            assert(window[1] == ':');
        }
    }
    lemma_find_is_first(line, mark, 0, n);
    assert(line.take(n) =~= field.0);
    assert(line.skip(n + 2) =~= field.1);
}

/// The lines of a text that begins with a whole line are that line and the
/// lines of the rest.
pub proof fn lemma_first_line(line: Seq<char>, rest: Seq<char>)
    requires
        is_single_line(line),
    ensures
        lines_spec(line + seq!['\n'] + rest) == seq![chomp(line)] + lines_spec(rest),
{
    lemma_split_line(line, rest);
}

/// White space at the end of a text does not change what trimming leaves.
proof fn lemma_trim_push(s: Seq<char>, c: char)
    requires
        is_whitespace(c),
    ensures
        trim_spec(s.push(c)) == trim_spec(s),
    decreases s.len(),
{
    let longer = s.push(c);
    if s.len() == 0 {
        assert(longer.drop_first() =~= s);
        reveal_with_fuel(trim_start, 2);
    } else if is_whitespace(s.first()) {
        lemma_trim_push(s.drop_first(), c);
        assert(longer.drop_first() =~= s.drop_first().push(c));
    } else {
        assert(longer.drop_last() =~= s);
    }
}

/// The carriage return that `chomp` takes off is white space to `trim`.
proof fn lemma_trim_chomp(s: Seq<char>)
    ensures
        trim_spec(chomp(s)) == trim_spec(s),
{
    if s.len() > 0 && s.last() == '\r' {
        lemma_trim_push(s.drop_last(), '\r');
        assert(s.drop_last().push('\r') =~= s);
    }
}

/// The line that a field is written as, as it is read.
pub open spec fn field_line(field: (Seq<char>, Seq<char>)) -> Seq<char> {
    chomp(field.0 + seq![':', ' '] + field.1)
}

/// The lines that fields are written as, as they are read.
spec fn field_lines(fields: Seq<(Seq<char>, Seq<char>)>) -> Seq<Seq<char>> {
    Seq::new(fields.len(), |i: int| field_line(fields[i]))
}

/// The lines of a text that begins with written fields.
proof fn lemma_field_lines(fields: Seq<(Seq<char>, Seq<char>)>, rest: Seq<char>)
    requires
        are_field_lines(fields),
    ensures
        lines_spec(fields_text(fields) + rest) == field_lines(fields) + lines_spec(rest),
    decreases fields.len(),
{
    if fields.len() == 0 {
        assert(fields_text(fields) + rest =~= rest);
        assert(field_lines(fields) + lines_spec(rest) =~= lines_spec(rest));
    } else {
        let init = fields.drop_last();
        let last = fields.last();
        let line = last.0 + seq![':', ' '] + last.1;
        assert(last == fields[fields.len() - 1]);
        assert(is_field_name(last.0) && is_single_line(last.1));
        assert forall|i: int| 0 <= i < init.len() implies is_field_name(#[trigger] init[i].0)
            && is_single_line(init[i].1) by {
            assert(init[i] == fields[i]);
        }
        assert(is_single_line(line));
        assert(field_text(last) + rest =~= line + seq!['\n'] + rest);
        assert(fields_text(fields) + rest =~= fields_text(init) + (field_text(last) + rest));
        lemma_field_lines(init, field_text(last) + rest);
        lemma_first_line(line, rest);
        assert(field_lines(fields) + lines_spec(rest) =~= field_lines(init) + (seq![
            field_line(last),
        ] + lines_spec(rest)));
    }
}

/// Reading a field's line takes in that field.
pub proof fn lemma_add_field_line(
    known: Seq<(Seq<char>, Seq<char>)>,
    field: (Seq<char>, Seq<char>),
)
    requires
        is_field_name(field.0),
    ensures
        add_line(known, field_line(field)) == add_field(
            known,
            trim_spec(field.0),
            trim_spec(field.1),
        ),
{
    let mark = seq![':', ' '];
    let whole = field.0 + mark + field.1;
    if field.1.len() == 0 {
        assert(whole.last() == ' ');
    } else {
        assert(whole.last() == field.1.last());
    }
    assert(field_line(field) =~= field.0 + mark + chomp(field.1));
    lemma_split_field((field.0, chomp(field.1)));
    lemma_trim_chomp(field.1);
}

/// Reading the lines of fields collects them.
proof fn lemma_fields_of_lines(fields: Seq<(Seq<char>, Seq<char>)>)
    requires
        are_field_lines(fields),
    ensures
        fields_of(field_lines(fields)) == collected(fields),
    decreases fields.len(),
{
    if fields.len() > 0 {
        let init = fields.drop_last();
        assert forall|i: int| 0 <= i < init.len() implies is_field_name(#[trigger] init[i].0)
            && is_single_line(init[i].1) by {
            assert(init[i] == fields[i]);
        }
        lemma_fields_of_lines(init);
        assert(field_lines(fields).drop_last() =~= field_lines(init));
        assert(fields.last() == fields[fields.len() - 1]);
        assert(is_field_name(fields[fields.len() - 1].0));
        lemma_add_field_line(collected(init), fields.last());
    }
}

/// A status line is read as the code and the description that it was written
/// from.
proof fn lemma_status_line(code: u32, description: Seq<char>)
    requires
        is_description(description),
    ensures
        ({
            let line = decimal_spec(code as nat) + seq![' '] + description;
            &&& is_single_line(line)
            &&& chomp(line) == line
            &&& split_once_spec(line, seq![' ']) == Some(
                (decimal_spec(code as nat), description),
            )
            &&& parse_u32_spec(decimal_spec(code as nat)) == Some(code)
        }),
{
    let number = decimal_spec(code as nat);
    let line = number + seq![' '] + description;
    lemma_decimal_value(code as nat);
    assert(number[0] != '+');
    lemma_split_status(code, description);
    if description.len() == 0 {
        assert(line.last() == ' ');
    } else {
        assert(line.last() == description.last());
    }
}

/// The lines of a written message, without the empty line at its end.
proof fn lemma_block_lines(
    code: u32,
    description: Seq<char>,
    fields: Seq<(Seq<char>, Seq<char>)>,
    rest: Seq<char>,
)
    requires
        is_description(description),
        are_field_lines(fields),
    ensures
        lines_spec(status_text(code, description) + fields_text(fields) + rest) == seq![
            decimal_spec(code as nat) + seq![' '] + description,
        ] + (field_lines(fields) + lines_spec(rest)),
{
    let line = decimal_spec(code as nat) + seq![' '] + description;
    let tail = fields_text(fields) + rest;
    lemma_status_line(code, description);
    assert(status_text(code, description) + fields_text(fields) + rest =~= line + seq!['\n']
        + tail);
    lemma_first_line(line, tail);
    lemma_field_lines(fields, rest);
}

/// A message that is written and read back has its code, its description, and
/// its fields as reading collects them. So has one that is read without the
/// empty line at its end.
pub proof fn lemma_parse_format(
    code: u32,
    description: Seq<char>,
    fields: Seq<(Seq<char>, Seq<char>)>,
)
    requires
        is_description(description),
        are_field_lines(fields),
    ensures
        parse_spec(format_spec(code, description, fields)) == Some(
            MessageView { code, description, fields: collected(fields) },
        ),
        parse_spec(status_text(code, description) + fields_text(fields)) == Some(
            MessageView { code, description, fields: collected(fields) },
        ),
{
    let line = decimal_spec(code as nat) + seq![' '] + description;
    let empty = Seq::<char>::empty();
    let block = status_text(code, description) + fields_text(fields);
    let written = field_lines(fields);
    lemma_status_line(code, description);
    lemma_fields_of_lines(fields);
    assert(lines_spec(empty) =~= Seq::<Seq<char>>::empty());

    lemma_block_lines(code, description, fields, empty);
    assert(block + empty =~= block);
    assert(lines_spec(block).skip(1) =~= written);

    lemma_block_lines(code, description, fields, seq!['\n']);
    lemma_first_line(empty, empty);
    assert(empty + seq!['\n'] + empty =~= seq!['\n']);
    let all = lines_spec(format_spec(code, description, fields));
    assert(all.skip(1) =~= written.push(empty));
    assert(written.push(empty).drop_last() =~= written);
    assert(split_once_spec(empty, seq![':', ' ']) is None);
}

/// Reading collects fields unchanged when their names are distinct and no name
/// or value has white space around it.
pub proof fn lemma_collected_unchanged(fields: Seq<(Seq<char>, Seq<char>)>)
    requires
        names_distinct(fields),
        forall|i: int|
            0 <= i < fields.len() ==> trim_spec(#[trigger] fields[i].0) == fields[i].0
                && trim_spec(fields[i].1) == fields[i].1,
    ensures
        collected(fields) == fields,
    decreases fields.len(),
{
    if fields.len() == 0 {
        assert(collected(fields) =~= fields);
    } else {
        let init = fields.drop_last();
        let last = fields[fields.len() - 1];
        assert forall|i: int| 0 <= i < init.len() implies trim_spec(#[trigger] init[i].0)
            == init[i].0 && trim_spec(init[i].1) == init[i].1 by {
            assert(init[i] == fields[i]);
        }
        lemma_collected_unchanged(init);
        assert(trim_spec(last.0) == last.0);
        lemma_name_from(init, last.0, 0);
        assert(add_field(init, last.0, last.1) =~= fields);
    }
}

/// A message is read back exactly as it was written, when its description and
/// each name and value is one line, the names are distinct and hold no colon
/// followed by a space, no name or value has white space around it, and the
/// description does not end in a carriage return.
pub proof fn law_parse_format(
    code: u32,
    description: Seq<char>,
    fields: Seq<(Seq<char>, Seq<char>)>,
)
    requires
        is_description(description),
        are_field_lines(fields),
        names_distinct(fields),
        forall|i: int|
            0 <= i < fields.len() ==> trim_spec(#[trigger] fields[i].0) == fields[i].0
                && trim_spec(fields[i].1) == fields[i].1,
    ensures
        parse_spec(format_spec(code, description, fields)) == Some(
            MessageView { code, description, fields },
        ),
{
    lemma_parse_format(code, description, fields);
    lemma_collected_unchanged(fields);
}

} // verus!
