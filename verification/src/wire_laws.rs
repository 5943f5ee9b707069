//! How the text of a message is made up of its parts, and how its parts are read off
//! the text.

use vstd::prelude::*;

use crate::fields::{add_field, law_known_field, law_new_field};
use crate::message::{
    MessageView, add_line, field_text, fields_of, fields_text, format_spec, parse_spec,
    slice_pairs, status_text,
};
use crate::message_laws::{
    is_field_line, lemma_begins, lemma_chomped_line, lemma_lines_concat,
};
use crate::roundtrip::{
    are_field_lines, collected, field_line, is_description, is_field_name, is_single_line,
    lemma_add_field_line, lemma_first_line, lemma_no_feed, lemma_parse_format,
};
use crate::text::{
    chomp, decimal_spec, find_from, is_whitespace, lemma_decimal_value, lemma_find_from,
    lemma_find_is_first, lines_spec, occurs, parse_u32_spec, split_once_spec,
};
use crate::text_laws::{law_lines, law_trim_keeps_the_rest};

verus! {

// ---------------------------------------------------------------------------
// Writing

/// A message without fields is its code in digits, a space, its description, and two
/// line feeds.
pub proof fn law_format_without_fields(code: u32, description: Seq<char>)
    ensures
        format_spec(code, description, seq![]) == decimal_spec(code as nat) + seq![' ']
            + description + seq!['\n', '\n'],
{
    let none = Seq::<(Seq<char>, Seq<char>)>::empty();
    assert(fields_text(none) =~= seq![]);
    assert(format_spec(code, description, none) =~= decimal_spec(code as nat) + seq![' ']
        + description + seq!['\n', '\n']);
}

/// One more field puts its name, a colon, a space, its value and a line feed before
/// the line feed that closes the message.
pub proof fn law_format_one_more_field(
    code: u32,
    description: Seq<char>,
    fields: Seq<(Seq<char>, Seq<char>)>,
    name: Seq<char>,
    value: Seq<char>,
)
    ensures
        format_spec(code, description, fields).len() > 0,
        format_spec(code, description, fields).last() == '\n',
        format_spec(code, description, fields.push((name, value))) == format_spec(
            code,
            description,
            fields,
        ).drop_last() + name + seq![':', ' '] + value + seq!['\n', '\n'],
{
    let more = fields.push((name, value));
    let shorter = format_spec(code, description, fields);
    assert(more.drop_last() =~= fields);
    assert(fields_text(more) == fields_text(fields) + field_text((name, value)));
    assert(shorter.drop_last() =~= status_text(code, description) + fields_text(fields));
    assert(format_spec(code, description, more) =~= shorter.drop_last() + name + seq![':', ' ']
        + value + seq!['\n', '\n']);
}

/// A message whose description, names and values are of one line each ends in an empty
/// line, and holds none before that: a reader that takes in lines up to the first empty
/// one has the whole message when the text has been sent, and not before.
pub proof fn law_format_is_closed(
    code: u32,
    description: Seq<char>,
    fields: Seq<(Seq<char>, Seq<char>)>,
)
    requires
        forall|i: int| 0 <= i < description.len() ==> description[i] != '\n',
        forall|k: int, i: int|
            0 <= k < fields.len() && 0 <= i < fields[k].0.len() ==> #[trigger] fields[k].0[i]
                != '\n',
        forall|k: int, i: int|
            0 <= k < fields.len() && 0 <= i < fields[k].1.len() ==> #[trigger] fields[k].1[i]
                != '\n',
    ensures
        ({
            let text = format_spec(code, description, fields);
            let n = text.len() as int;
            &&& n >= 2 && text[n - 1] == '\n' && text[n - 2] == '\n'
            &&& text[0] != '\n'
            &&& forall|i: int|
                0 <= i < n - 2 ==> !(#[trigger] text[i] == '\n' && text[i + 1] == '\n')
        }),
    decreases fields.len(),
{
    let text = format_spec(code, description, fields);
    let n = text.len() as int;
    if fields.len() == 0 {
        let number = decimal_spec(code as nat);
        let line = number + seq![' '] + description;
        assert(fields =~= seq![]);
        law_format_without_fields(code, description);
        lemma_decimal_value(code as nat);
        assert(text =~= line + seq!['\n', '\n']);
        assert forall|i: int| 0 <= i < line.len() implies line[i] != '\n' by {
            if i < number.len() {
                assert(line[i] == number[i]);
            } else if i > number.len() {
                assert(line[i] == description[i - number.len() - 1]);
            }
        }
        assert(text[0] == number[0]);
    } else {
        let init = fields.drop_last();
        let end = fields.len() - 1;
        let (name, value) = fields[end];
        let shorter = format_spec(code, description, init);
        let m = shorter.len() as int;
        let line = name + seq![':', ' '] + value;
        assert forall|k: int, i: int|
            0 <= k < init.len() && 0 <= i < init[k].0.len() implies #[trigger] init[k].0[i]
            != '\n' by {
            assert(fields[k].0[i] != '\n');
        }
        assert forall|k: int, i: int|
            0 <= k < init.len() && 0 <= i < init[k].1.len() implies #[trigger] init[k].1[i]
            != '\n' by {
            assert(fields[k].1[i] != '\n');
        }
        law_format_is_closed(code, description, init);
        law_format_one_more_field(code, description, init, name, value);
        assert(init.push((name, value)) =~= fields);
        assert(text =~= shorter.drop_last() + (line + seq!['\n', '\n']));
        assert forall|i: int| 0 <= i < line.len() implies line[i] != '\n' by {
            if i < name.len() {
                assert(fields[end].0[i] != '\n');
            } else if i >= name.len() + 2 {
                assert(fields[end].1[i - name.len() - 2] != '\n');
            }
        }
        assert(text[m - 1] == line[0]);
        assert(text[0] == shorter[0]);
        assert forall|i: int| 0 <= i < n - 2 implies !(#[trigger] text[i] == '\n' && text[i + 1]
            == '\n') by {
            if i + 1 < m - 1 {
                assert(text[i] == shorter[i] && text[i + 1] == shorter[i + 1]);
            } else if i + 1 == m - 1 {
                assert(text[i + 1] == line[0]);
            } else {
                assert(text[i] == line[i - (m - 1)]);
            }
        }
    }
}

/// The lines of a written message up to its empty line, which is what a reader has
/// taken in when the empty line comes, read as its code, its description and its
/// fields as reading collects them.
pub proof fn law_block_is_read(
    code: u32,
    description: Seq<char>,
    fields: Seq<(Seq<char>, Seq<char>)>,
)
    requires
        is_description(description),
        are_field_lines(fields),
    ensures
        parse_spec(format_spec(code, description, fields).drop_last()) == Some(
            MessageView { code, description, fields: collected(fields) },
        ),
{
    lemma_parse_format(code, description, fields);
    assert(format_spec(code, description, fields).drop_last() =~= status_text(code, description)
        + fields_text(fields));
}

/// The pairs that string slices hold, one by one.
pub proof fn law_slice_pairs(fields: Seq<(&str, &str)>, i: int)
    requires
        0 <= i < fields.len(),
    ensures
        slice_pairs(fields).len() == fields.len(),
        slice_pairs(fields)[i].0 == fields[i].0@,
        slice_pairs(fields)[i].1 == fields[i].1@,
{
}

// ---------------------------------------------------------------------------
// Reading the status line

/// A text without lines, or whose first line has no space, holds no message.
pub proof fn law_no_space_no_message(line: Seq<char>, rest: Seq<char>)
    requires
        forall|i: int| 0 <= i < line.len() ==> line[i] != '\n' && line[i] != ' ',
    ensures
        parse_spec(line) is None,
        parse_spec(line + seq!['\n'] + rest) is None,
{
    let blank = seq![' '];
    lemma_first_line(line, rest);
    lemma_no_feed(line);
    if line.len() > 0 {
        assert(lines_spec(line) =~= seq![line]);
    }
    lemma_find_from(line, blank, 0);
    lemma_find_from(chomp(line), blank, 0);
    if let Some(i) = find_from(line, blank, 0) {
        assert(line.subrange(i, i + 1)[0] == ' ');
    }
    if let Some(i) = find_from(chomp(line), blank, 0) {
        assert(chomp(line).subrange(i, i + 1)[0] == ' ');
    }
    assert(lines_spec(line + seq!['\n'] + rest)[0] == chomp(line));
}

/// What stands before the first space of the first line decides whether a text holds a
/// message. If that is a number, it is the code, and what stands after the space, up to
/// the line ending, is the description. There are no fields without a second line.
pub proof fn law_status_line_is_read(
    number: Seq<char>,
    description: Seq<char>,
    rest: Seq<char>,
)
    requires
        forall|i: int| 0 <= i < number.len() ==> number[i] != '\n' && number[i] != ' ',
        forall|i: int| 0 <= i < description.len() ==> description[i] != '\n',
    ensures
        ({
            let line = number + seq![' '] + description;
            let plain = description.len() == 0 || description.last() != '\r';
            match parse_u32_spec(number) {
                Some(code) => {
                    let bare = MessageView { code, description, fields: seq![] };
                    &&& parse_spec(line) == Some(bare)
                    &&& parse_spec(line + seq!['\r', '\n']) == Some(bare)
                    &&& plain ==> parse_spec(line + seq!['\n']) == Some(bare)
                    &&& parse_spec(line + seq!['\r', '\n'] + rest) matches Some(message)
                        && message.code == code && message.description == description
                    &&& plain ==> (parse_spec(line + seq!['\n'] + rest) matches Some(message)
                        && message.code == code && message.description == description)
                },
                None => {
                    &&& parse_spec(line) is None
                    &&& parse_spec(line + seq!['\r', '\n'] + rest) is None
                    &&& parse_spec(line + seq!['\n'] + rest) is None
                },
            }
        }),
{
    let blank = seq![' '];
    let empty = Seq::<char>::empty();
    let line = number + blank + description;
    let n = number.len() as int;
    assert forall|i: int| 0 <= i < line.len() implies line[i] != '\n' by {
        if i < n {
            assert(line[i] == number[i]);
        } else if i > n {
            assert(line[i] == description[i - n - 1]);
        }
    }
    if description.len() == 0 {
        assert(line.last() == ' ');
    } else {
        assert(line.last() == description.last());
    }
    lemma_split_number(number, description);
    law_lines(line, rest);
    law_lines(line, empty);
    assert(line + seq!['\n'] + empty =~= line + seq!['\n']);
    assert(line + seq!['\r', '\n'] + empty =~= line + seq!['\r', '\n']);
    assert(lines_spec(empty) =~= seq![]);
    assert(seq![line] + lines_spec(empty) =~= seq![line]);
    assert(seq![line].skip(1) =~= seq![]);
    assert(lines_spec(line + seq!['\r', '\n'] + rest)[0] == line);
    if description.len() > 0 && description.last() == '\r' {
        let short = description.drop_last();
        lemma_first_line(line, rest);
        lemma_split_number(number, short);
        assert(chomp(line) =~= number + blank + short);
        assert(lines_spec(line + seq!['\n'] + rest)[0] == chomp(line));
    } else {
        assert(lines_spec(line + seq!['\n'] + rest)[0] == line);
    }
}

/// A text without a space is split off at the first space behind it.
proof fn lemma_split_number(number: Seq<char>, description: Seq<char>)
    requires
        forall|i: int| 0 <= i < number.len() ==> number[i] != '\n' && number[i] != ' ',
    ensures
        split_once_spec(number + seq![' '] + description, seq![' ']) == Some(
            (number, description),
        ),
{
    let blank = seq![' '];
    let line = number + blank + description;
    let n = number.len() as int;
    assert(line.subrange(n, n + 1) =~= blank);
    assert forall|j: int| 0 <= j < n implies !occurs(line, blank, j) by {
        assert(line.subrange(j, j + 1)[0] == number[j]);
    }
    lemma_find_is_first(line, blank, 0, n);
    assert(line.take(n) =~= number);
    assert(line.skip(n + 1) =~= description);
}

// ---------------------------------------------------------------------------
// Reading one more line

/// The lines of a text with one more line.
proof fn lemma_one_more_line(before: Seq<char>, line: Seq<char>)
    requires
        is_single_line(line),
    ensures
        lines_spec(before + seq!['\n']).len() > 0,
        lines_spec(before + seq!['\n'] + line + seq!['\n']) == lines_spec(
            before + seq!['\n'],
        ).push(chomp(line)),
        parse_spec(before + seq!['\n'] + line + seq!['\n']) == (match parse_spec(
            before + seq!['\n'],
        ) {
            Some(message) => Some(
                MessageView {
                    code: message.code,
                    description: message.description,
                    fields: add_line(message.fields, chomp(line)),
                },
            ),
            None => None,
        }),
{
    let empty = Seq::<char>::empty();
    let ended = line + seq!['\n'];
    let known = lines_spec(before + seq!['\n']);
    let text = before + seq!['\n'] + line + seq!['\n'];
    lemma_begins(before);
    lemma_lines_concat(before, ended);
    lemma_first_line(line, empty);
    assert(ended =~= line + seq!['\n'] + empty);
    assert(lines_spec(empty) =~= seq![]);
    assert(lines_spec(ended) =~= seq![chomp(line)]);
    assert(text =~= before + seq!['\n'] + ended);
    assert(lines_spec(text) =~= known.push(chomp(line)));
    assert(lines_spec(text).skip(1) =~= known.skip(1).push(chomp(line)));
    assert(known.skip(1).push(chomp(line)).drop_last() =~= known.skip(1));
    assert(fields_of(known.skip(1).push(chomp(line))) == add_line(
        fields_of(known.skip(1)),
        chomp(line),
    ));
}

/// One more line makes no message of a text that holds none, and leaves the code and
/// the description of one that does. Without a colon and a space in it, it leaves the
/// fields too.
pub proof fn law_one_more_line(before: Seq<char>, line: Seq<char>)
    requires
        forall|i: int| 0 <= i < line.len() ==> line[i] != '\n',
    ensures
        match (
            parse_spec(before + seq!['\n']),
            parse_spec(before + seq!['\n'] + line + seq!['\n']),
        ) {
            (Some(known), Some(read)) => {
                &&& read.code == known.code
                &&& read.description == known.description
                &&& (forall|i: int|
                    0 <= i < line.len() - 1 ==> !(#[trigger] line[i] == ':' && line[i + 1] == ' '))
                    ==> read.fields == known.fields
            },
            (None, None) => true,
            _ => false,
        },
{
    let mark = seq![':', ' '];
    lemma_one_more_line(before, line);
    if forall|i: int|
        0 <= i < line.len() - 1 ==> !(#[trigger] line[i] == ':' && line[i + 1] == ' ') {
        assert forall|i: int| !occurs(line, mark, i) by {
            if occurs(line, mark, i) {
                assert(line.subrange(i, i + 2)[0] == mark[0]);
                assert(line.subrange(i, i + 2)[1] == mark[1]);
                assert(line[i] == ':' && line[i + 1] == ' ');
            }
        }
        assert(!is_field_line(line));
        lemma_chomped_line(line);
        lemma_find_from(chomp(line), mark, 0);
        assert(split_once_spec(chomp(line), mark) is None);
    }
}

/// A line with a name, a colon, a space and a value, with white space around the name
/// and around the value, adds that value under that name, both to the character. A new
/// name comes last. A name that is known has the value put below the one it had, or in
/// its place where that was empty.
pub proof fn law_one_more_field(
    before: Seq<char>,
    known: MessageView,
    around_name: (Seq<char>, Seq<char>),
    name: Seq<char>,
    around_value: (Seq<char>, Seq<char>),
    value: Seq<char>,
)
    requires
        parse_spec(before + seq!['\n']) == Some(known),
        forall|i: int|
            0 <= i < around_name.0.len() ==> is_whitespace(around_name.0[i]) && around_name.0[i]
                != '\n',
        forall|i: int|
            0 <= i < around_name.1.len() ==> is_whitespace(around_name.1[i]) && around_name.1[i]
                != '\n',
        forall|i: int|
            0 <= i < around_value.0.len() ==> is_whitespace(around_value.0[i])
                && around_value.0[i] != '\n',
        forall|i: int|
            0 <= i < around_value.1.len() ==> is_whitespace(around_value.1[i])
                && around_value.1[i] != '\n',
        forall|i: int| 0 <= i < name.len() ==> name[i] != '\n',
        forall|i: int| 0 <= i < value.len() ==> value[i] != '\n',
        name.len() > 0 ==> !is_whitespace(name[0]) && !is_whitespace(name[name.len() - 1]),
        value.len() > 0 ==> !is_whitespace(value[0]) && !is_whitespace(value[value.len() - 1]),
        ({
            let left = around_name.0 + name + around_name.1;
            forall|i: int|
                0 <= i < left.len() - 1 ==> !(#[trigger] left[i] == ':' && left[i + 1] == ' ')
        }),
    ensures
        ({
            let line = around_name.0 + name + around_name.1 + seq![':', ' '] + (around_value.0
                + value + around_value.1);
            &&& parse_spec(before + seq!['\n'] + line + seq!['\n']) matches Some(read)
            &&& read.code == known.code
            &&& read.description == known.description
            &&& (forall|j: int| 0 <= j < known.fields.len() ==> (#[trigger] known.fields[j]).0
                != name) ==> read.fields == known.fields.push((name, value))
            &&& forall|k: int|
                {
                    &&& 0 <= k < known.fields.len()
                    &&& (#[trigger] known.fields[k]).0 == name
                    &&& forall|j: int| 0 <= j < k ==> (#[trigger] known.fields[j]).0 != name
                } ==> {
                    &&& read.fields.len() == known.fields.len()
                    &&& forall|j: int|
                        0 <= j < known.fields.len() && j != k ==> #[trigger] read.fields[j]
                            == known.fields[j]
                    &&& read.fields[k].0 == name
                    &&& known.fields[k].1.len() == 0 ==> read.fields[k].1 == value
                    &&& known.fields[k].1.len() > 0 ==> read.fields[k].1 == known.fields[k].1
                        + seq!['\n'] + value
                }
        }),
{
    let mark = seq![':', ' '];
    let left = around_name.0 + name + around_name.1;
    let right = around_value.0 + value + around_value.1;
    let line = left + mark + right;
    assert forall|i: int| 0 <= i < left.len() implies left[i] != '\n' by {
        let (a, b) = (around_name.0.len() as int, around_name.0.len() + name.len());
        if i < a {
            assert(left[i] == around_name.0[i]);
        } else if i < b {
            assert(left[i] == name[i - a]);
        } else {
            assert(left[i] == around_name.1[i - b]);
        }
    }
    assert forall|i: int| 0 <= i < right.len() implies right[i] != '\n' by {
        let (a, b) = (around_value.0.len() as int, around_value.0.len() + value.len());
        if i < a {
            assert(right[i] == around_value.0[i]);
        } else if i < b {
            assert(right[i] == value[i - a]);
        } else {
            assert(right[i] == around_value.1[i - b]);
        }
    }
    assert forall|i: int| !occurs(left, mark, i) by {
        if occurs(left, mark, i) {
            assert(left.subrange(i, i + 2)[0] == mark[0]);
            assert(left.subrange(i, i + 2)[1] == mark[1]);
            assert(left[i] == ':' && left[i + 1] == ' ');
        }
    }
    assert(is_field_name(left));
    assert(is_single_line(line));
    lemma_one_more_line(before, line);
    lemma_add_field_line(known.fields, (left, right));
    assert(field_line((left, right)) == chomp(line));
    law_trim_keeps_the_rest(around_name.0, name, around_name.1);
    law_trim_keeps_the_rest(around_value.0, value, around_value.1);
    let read = add_field(known.fields, name, value);
    if forall|j: int| 0 <= j < known.fields.len() ==> (#[trigger] known.fields[j]).0 != name {
        law_new_field(known.fields, name, value);
    }
    assert forall|k: int|
        {
            &&& 0 <= k < known.fields.len()
            &&& (#[trigger] known.fields[k]).0 == name
            &&& forall|j: int| 0 <= j < k ==> (#[trigger] known.fields[j]).0 != name
        } implies {
        &&& read.len() == known.fields.len()
        &&& forall|j: int|
            0 <= j < known.fields.len() && j != k ==> #[trigger] read[j] == known.fields[j]
        &&& read[k].0 == name
        &&& known.fields[k].1.len() == 0 ==> read[k].1 == value
        &&& known.fields[k].1.len() > 0 ==> read[k].1 == known.fields[k].1 + seq!['\n'] + value
    } by {
        law_known_field(known.fields, k, value);
    }
}

} // verus!
