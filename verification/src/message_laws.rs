//! What sets messages apart when they are written, and what does not matter when
//! they are read.

use vstd::prelude::*;

use crate::fields::{
    continued, law_add_field, lemma_add_field_distinct, lookup, names_distinct, same_fields,
};
use crate::message::{
    MessageView, add_line, field_text, fields_of, fields_text, format_spec, parse_spec,
};
use crate::roundtrip::{
    are_field_lines, is_field_name, is_single_line, lemma_first_feed, lemma_first_line,
    lemma_no_feed, lemma_split_field, lemma_split_line, lemma_split_status,
};
use crate::text::{
    chomp, decimal_spec, find_from, lemma_decimal_value, lemma_find_from, lines_spec, occurs,
    split_once_spec, trim_spec,
};

verus! {

// ---------------------------------------------------------------------------
// Writing

/// The text of fields begins with the line of the first.
proof fn lemma_fields_text_front(fields: Seq<(Seq<char>, Seq<char>)>)
    requires
        fields.len() > 0,
    ensures
        fields_text(fields) == field_text(fields[0]) + fields_text(fields.drop_first()),
    decreases fields.len(),
{
    let init = fields.drop_last();
    let rest = fields.drop_first();
    if fields.len() == 1 {
        assert(fields_text(init) =~= seq![]);
        assert(fields_text(rest) =~= seq![]);
        assert(fields_text(fields) =~= field_text(fields[0]) + fields_text(rest));
    } else {
        lemma_fields_text_front(init);
        assert(init.drop_first() =~= rest.drop_last());
        assert(fields_text(fields) =~= field_text(fields[0]) + fields_text(rest));
    }
}

/// The lines of fields, up to an empty line, tell the fields.
proof fn lemma_fields_text_tells(
    a: Seq<(Seq<char>, Seq<char>)>,
    b: Seq<(Seq<char>, Seq<char>)>,
)
    requires
        are_field_lines(a),
        are_field_lines(b),
        fields_text(a) + seq!['\n'] == fields_text(b) + seq!['\n'],
    ensures
        a == b,
    decreases a.len() + b.len(),
{
    lemma_first_of_fields(a);
    lemma_first_of_fields(b);
    if a.len() > 0 && b.len() > 0 {
        let line_a = a[0].0 + seq![':', ' '] + a[0].1;
        let line_b = b[0].0 + seq![':', ' '] + b[0].1;
        assert(line_a == line_b);
        assert(is_field_name(a[0].0) && is_field_name(b[0].0));
        lemma_split_field(a[0]);
        lemma_split_field(b[0]);
        assert forall|i: int| 0 <= i < a.drop_first().len() implies is_field_name(
            #[trigger] a.drop_first()[i].0,
        ) && is_single_line(a.drop_first()[i].1) by {
            assert(is_field_name(a[i + 1].0));
        }
        assert forall|i: int| 0 <= i < b.drop_first().len() implies is_field_name(
            #[trigger] b.drop_first()[i].0,
        ) && is_single_line(b.drop_first()[i].1) by {
            assert(is_field_name(b[i + 1].0));
        }
        lemma_fields_text_tells(a.drop_first(), b.drop_first());
        assert(a =~= seq![a[0]] + a.drop_first());
        assert(b =~= seq![b[0]] + b.drop_first());
    } else if a.len() == 0 && b.len() == 0 {
        assert(a =~= b);
    }
}

/// The first line of fields with an empty line behind them.
proof fn lemma_first_of_fields(fields: Seq<(Seq<char>, Seq<char>)>)
    requires
        are_field_lines(fields),
    ensures
        split_once_spec(fields_text(fields) + seq!['\n'], seq!['\n']) == (if fields.len() == 0 {
            Some((Seq::<char>::empty(), Seq::<char>::empty()))
        } else {
            Some(
                (
                    fields[0].0 + seq![':', ' '] + fields[0].1,
                    fields_text(fields.drop_first()) + seq!['\n'],
                ),
            )
        }),
        fields.len() > 0 ==> (fields[0].0 + seq![':', ' '] + fields[0].1).len() > 0,
{
    let empty = Seq::<char>::empty();
    if fields.len() == 0 {
        lemma_split_line(empty, empty);
        assert(fields_text(fields) + seq!['\n'] =~= empty + seq!['\n'] + empty);
    } else {
        let line = fields[0].0 + seq![':', ' '] + fields[0].1;
        let rest = fields_text(fields.drop_first()) + seq!['\n'];
        assert(is_field_name(fields[0].0) && is_single_line(fields[0].1));
        assert(is_single_line(line));
        lemma_fields_text_front(fields);
        assert(fields_text(fields) + seq!['\n'] =~= line + seq!['\n'] + rest);
        lemma_split_line(line, rest);
    }
}

/// No two different messages are written alike, when their descriptions, names and
/// values are of one line each and no name holds a colon followed by a space.
pub proof fn law_format_tells_messages_apart(
    code_a: u32,
    description_a: Seq<char>,
    fields_a: Seq<(Seq<char>, Seq<char>)>,
    code_b: u32,
    description_b: Seq<char>,
    fields_b: Seq<(Seq<char>, Seq<char>)>,
)
    requires
        is_single_line(description_a),
        is_single_line(description_b),
        are_field_lines(fields_a),
        are_field_lines(fields_b),
        format_spec(code_a, description_a, fields_a) == format_spec(
            code_b,
            description_b,
            fields_b,
        ),
    ensures
        code_a == code_b,
        description_a == description_b,
        fields_a == fields_b,
{
    let line_a = decimal_spec(code_a as nat) + seq![' '] + description_a;
    let line_b = decimal_spec(code_b as nat) + seq![' '] + description_b;
    let rest_a = fields_text(fields_a) + seq!['\n'];
    let rest_b = fields_text(fields_b) + seq!['\n'];
    lemma_split_status(code_a, description_a);
    lemma_split_status(code_b, description_b);
    assert(format_spec(code_a, description_a, fields_a) =~= line_a + seq!['\n'] + rest_a);
    assert(format_spec(code_b, description_b, fields_b) =~= line_b + seq!['\n'] + rest_b);
    lemma_split_line(line_a, rest_a);
    lemma_split_line(line_b, rest_b);
    lemma_decimal_value(code_a as nat);
    lemma_decimal_value(code_b as nat);
    lemma_fields_text_tells(fields_a, fields_b);
}

// ---------------------------------------------------------------------------
// Reading

/// The line holds a field: it has a colon and a space.
pub open spec fn is_field_line(line: Seq<char>) -> bool {
    exists|i: int| occurs(line, seq![':', ' '], i)
}

/// The two texts have the same first line and, after it, the same field lines in
/// the same order. They may differ in any other lines.
pub open spec fn same_but_other_lines(a: Seq<char>, b: Seq<char>) -> bool {
    let (lines_a, lines_b) = (lines_spec(a), lines_spec(b));
    ||| lines_a == lines_b
    ||| {
        &&& lines_a.len() > 0 && lines_b.len() > 0
        &&& lines_a[0] == lines_b[0]
        &&& lines_a.skip(1).filter(|line: Seq<char>| is_field_line(line)) == lines_b.skip(
            1,
        ).filter(|line: Seq<char>| is_field_line(line))
    }
}

/// Only field lines hold fields.
proof fn lemma_fields_of_field_lines(body: Seq<Seq<char>>)
    ensures
        fields_of(body) == fields_of(body.filter(|line: Seq<char>| is_field_line(line))),
    decreases body.len(),
{
    let keep = |line: Seq<char>| is_field_line(line);
    reveal(Seq::filter);
    if body.len() > 0 {
        let init = body.drop_last();
        lemma_fields_of_field_lines(init);
        lemma_find_from(body.last(), seq![':', ' '], 0);
        if keep(body.last()) {
            assert(body.filter(keep) == init.filter(keep).push(body.last()));
            assert(body.filter(keep).drop_last() =~= init.filter(keep));
        } else {
            assert(body.filter(keep) == init.filter(keep));
            assert(find_from(body.last(), seq![':', ' '], 0) is None);
        }
    }
}

/// Lines without a colon and a space, wherever they stand after the first line, do
/// not change what is read.
pub proof fn law_other_lines_do_not_matter(a: Seq<char>, b: Seq<char>)
    requires
        same_but_other_lines(a, b),
    ensures
        parse_spec(a) == parse_spec(b),
{
    lemma_fields_of_field_lines(lines_spec(a).skip(1));
    lemma_fields_of_field_lines(lines_spec(b).skip(1));
}

/// The lines of a text whose end has been reached are followed by those of the rest.
pub proof fn lemma_lines_concat(s: Seq<char>, rest: Seq<char>)
    ensures
        lines_spec(s + seq!['\n'] + rest) == lines_spec(s + seq!['\n']) + lines_spec(rest),
    decreases s.len(),
{
    let empty = Seq::<char>::empty();
    let ended = s + seq!['\n'];
    assert(ended =~= s + seq!['\n'] + empty);
    assert(lines_spec(empty) =~= seq![]);
    if is_single_line(s) {
        lemma_first_line(s, rest);
        lemma_first_line(s, empty);
        assert(lines_spec(ended) =~= seq![chomp(s)]);
    } else {
        let (head, tail) = lemma_first_feed(s);
        lemma_lines_concat(tail, rest);
        lemma_first_line(head, tail + seq!['\n'] + rest);
        lemma_first_line(head, tail + seq!['\n']);
        assert(ended + rest =~= head + seq!['\n'] + (tail + seq!['\n'] + rest));
        assert(ended =~= head + seq!['\n'] + (tail + seq!['\n']));
        assert(seq![chomp(head)] + (lines_spec(tail + seq!['\n']) + lines_spec(rest)) =~= (seq![
            chomp(head),
        ] + lines_spec(tail + seq!['\n'])) + lines_spec(rest));
    }
}

/// A carriage return before a line feed does not change the lines of a text.
proof fn lemma_one_ending(s: Seq<char>, rest: Seq<char>)
    requires
        s.len() > 0 ==> s.last() != '\r',
    ensures
        lines_spec(s + seq!['\r', '\n'] + rest) == lines_spec(s + seq!['\n'] + rest),
    decreases s.len(),
{
    if is_single_line(s) {
        let longer = s.push('\r');
        assert(s + seq!['\r', '\n'] + rest =~= longer + seq!['\n'] + rest);
        lemma_first_line(longer, rest);
        lemma_first_line(s, rest);
        assert(chomp(longer) =~= s);
    } else {
        let (head, tail) = lemma_first_feed(s);
        if tail.len() > 0 {
            assert(tail.last() == s.last());
        }
        lemma_one_ending(tail, rest);
        lemma_first_line(head, tail + seq!['\r', '\n'] + rest);
        lemma_first_line(head, tail + seq!['\n'] + rest);
        assert(s + seq!['\r', '\n'] + rest =~= head + seq!['\n'] + (tail + seq!['\r', '\n']
            + rest));
        assert(s + seq!['\n'] + rest =~= head + seq!['\n'] + (tail + seq!['\n'] + rest));
    }
}

/// The text with a carriage return put before each of the line feeds whose
/// positions are in `which`.
pub open spec fn with_returns(s: Seq<char>, which: Set<int>) -> Seq<char>
    decreases s.len(),
{
    if s.len() == 0 {
        seq![]
    } else {
        let init = with_returns(s.drop_last(), which);
        if s.last() == '\n' && which.contains(s.len() - 1) {
            init + seq!['\r', '\n']
        } else {
            init.push(s.last())
        }
    }
}

/// No line feed has a carriage return before it.
pub open spec fn has_plain_endings(s: Seq<char>) -> bool {
    forall|i: int| 0 < i < s.len() && #[trigger] s[i] == '\n' ==> s[i - 1] != '\r'
}

/// The lines of a text stay the same while returns are put into its beginning.
proof fn lemma_with_returns(s: Seq<char>, which: Set<int>, n: int)
    requires
        has_plain_endings(s),
        0 <= n <= s.len(),
    ensures
        lines_spec(with_returns(s.take(n), which) + s.skip(n)) == lines_spec(s),
        n > 0 ==> with_returns(s.take(n), which).len() > 0,
        n > 0 ==> with_returns(s.take(n), which).last() == s[n - 1],
        n == 0 ==> with_returns(s.take(n), which).len() == 0,
    decreases n,
{
    if n == 0 {
        assert(with_returns(s.take(0), which) + s.skip(0) =~= s);
    } else {
        lemma_with_returns(s, which, n - 1);
        let before = with_returns(s.take(n - 1), which);
        let rest = s.skip(n);
        assert(s.take(n).drop_last() =~= s.take(n - 1));
        assert(s.take(n).last() == s[n - 1]);
        assert(before + s.skip(n - 1) =~= before + seq![s[n - 1]] + rest);
        if s[n - 1] == '\n' && which.contains(n - 1) {
            lemma_one_ending(before, rest);
        } else {
            assert(before.push(s[n - 1]) + rest =~= before + seq![s[n - 1]] + rest);
        }
    }
}

/// It does not matter to reading which of the line feeds of a text have a carriage
/// return put before them, where none had one.
pub proof fn law_line_endings_do_not_matter(s: Seq<char>, which: Set<int>)
    requires
        has_plain_endings(s),
    ensures
        lines_spec(with_returns(s, which)) == lines_spec(s),
        parse_spec(with_returns(s, which)) == parse_spec(s),
{
    lemma_with_returns(s, which, s.len() as int);
    assert(s.take(s.len() as int) =~= s);
    assert(with_returns(s, which) + s.skip(s.len() as int) =~= with_returns(s, which));
}

/// A line feed at the end of a text does not change what is read, where no carriage
/// return comes to stand before it.
pub proof fn law_last_line_feed_does_not_matter(s: Seq<char>)
    requires
        s.len() > 0 ==> s.last() != '\r',
    ensures
        parse_spec(s + seq!['\n']) == parse_spec(s),
{
    let empty = Seq::<char>::empty();
    let ended = s + seq!['\n'];
    assert(lines_spec(empty) =~= seq![]);
    if s.len() == 0 {
        lemma_first_line(empty, empty);
        assert(ended =~= empty + seq!['\n'] + empty);
        lemma_find_from(empty, seq![' '], 0);
        assert(lines_spec(ended)[0] == empty);
        assert(parse_spec(ended) is None);
    } else {
        lemma_ended_lines(s);
        if s.last() == '\n' {
            let all = lines_spec(s);
            let longer = lines_spec(ended);
            assert(longer[0] == all[0]);
            assert(longer.skip(1).drop_last() =~= all.skip(1));
            assert(longer.skip(1).last() == empty);
            lemma_find_from(empty, seq![':', ' '], 0);
            assert(add_line(fields_of(all.skip(1)), empty) == fields_of(all.skip(1)));
        }
    }
}

/// A line feed ends the last line of a text or, where that is ended already, makes
/// an empty one.
proof fn lemma_ended_lines(s: Seq<char>)
    requires
        s.len() > 0,
        s.last() != '\r',
    ensures
        lines_spec(s).len() > 0,
        lines_spec(s + seq!['\n']) == (if s.last() == '\n' {
            lines_spec(s).push(seq![])
        } else {
            lines_spec(s)
        }),
    decreases s.len(),
{
    let empty = Seq::<char>::empty();
    let ended = s + seq!['\n'];
    assert(lines_spec(empty) =~= seq![]);
    if is_single_line(s) {
        lemma_first_line(s, empty);
        assert(ended =~= s + seq!['\n'] + empty);
        lemma_no_feed(s);
        assert(lines_spec(s) =~= seq![s]);
        assert(lines_spec(ended) =~= seq![s]);
    } else {
        let (head, tail) = lemma_first_feed(s);
        lemma_first_line(head, tail);
        lemma_first_line(head, tail + seq!['\n']);
        assert(ended =~= head + seq!['\n'] + (tail + seq!['\n']));
        if tail.len() == 0 {
            lemma_first_line(empty, empty);
            assert(tail + seq!['\n'] =~= empty + seq!['\n'] + empty);
            assert(tail =~= empty);
            assert(lines_spec(ended) =~= lines_spec(s).push(seq![]));
        } else {
            assert(tail.last() == s.last());
            lemma_ended_lines(tail);
            if s.last() == '\n' {
                assert(lines_spec(ended) =~= lines_spec(s).push(seq![]));
            }
        }
    }
}

/// Reading is not changed by lines without a colon and a space after the first
/// line, by the kind of the line endings, and by a line ending at the end of the
/// text, all at once.
pub proof fn law_parse_passes_over(s: Seq<char>, t: Seq<char>, which: Set<int>)
    requires
        same_but_other_lines(s, t),
        has_plain_endings(t),
        t.len() > 0 ==> t.last() != '\r',
    ensures
        parse_spec(with_returns(t, which)) == parse_spec(s),
        parse_spec(with_returns(t + seq!['\n'], which)) == parse_spec(s),
{
    let ended = t + seq!['\n'];
    law_other_lines_do_not_matter(s, t);
    law_line_endings_do_not_matter(t, which);
    law_last_line_feed_does_not_matter(t);
    assert forall|i: int| 0 < i < ended.len() && #[trigger] ended[i] == '\n' implies ended[i - 1]
        != '\r' by {
        if i < t.len() {
            assert(t[i] == '\n');
        }
    }
    law_line_endings_do_not_matter(ended, which);
}

/// A line that is no field line drops out among field lines.
proof fn lemma_line_drops_out(head: Seq<Seq<char>>, line: Seq<char>, tail: Seq<Seq<char>>)
    requires
        !is_field_line(line),
    ensures
        (head + (seq![line] + tail)).filter(|l: Seq<char>| is_field_line(l)) == (head
            + tail).filter(|l: Seq<char>| is_field_line(l)),
{
    let keep = |l: Seq<char>| is_field_line(l);
    Seq::filter_distributes_over_add(head, seq![line] + tail, keep);
    Seq::filter_distributes_over_add(seq![line], tail, keep);
    Seq::filter_distributes_over_add(head, tail, keep);
    assert(seq![line].filter(keep) =~= seq![]) by {
        reveal_with_fuel(Seq::filter, 2);
        assert(seq![line].drop_last() =~= seq![]);
        assert(!keep(seq![line].last()));
    }
    assert(seq![line].filter(keep) + tail.filter(keep) =~= tail.filter(keep));
}

/// A line that is no field line is none without the carriage return at its end.
pub proof fn lemma_chomped_line(line: Seq<char>)
    requires
        !is_field_line(line),
    ensures
        !is_field_line(chomp(line)),
{
    if is_field_line(chomp(line)) {
        let i = choose|i: int| occurs(chomp(line), seq![':', ' '], i);
        assert(chomp(line).subrange(i, i + 2) =~= line.subrange(i, i + 2));
        assert(occurs(line, seq![':', ' '], i));
    }
}

/// A text with a line feed has a first line.
pub proof fn lemma_begins(s: Seq<char>)
    ensures
        lines_spec(s + seq!['\n']).len() > 0,
{
    lemma_find_from(s + seq!['\n'], seq!['\n'], 0);
}

/// A line without a colon and a space can be put between any two lines of a text.
pub proof fn law_line_is_passed_over(before: Seq<char>, line: Seq<char>, rest: Seq<char>)
    requires
        is_single_line(line),
        !is_field_line(line),
    ensures
        parse_spec(before + seq!['\n'] + (line + seq!['\n'] + rest)) == parse_spec(
            before + seq!['\n'] + rest,
        ),
{
    let more = line + seq!['\n'] + rest;
    let first = lines_spec(before + seq!['\n']);
    let head = first.skip(1);
    let tail = lines_spec(rest);
    let with = lines_spec(before + seq!['\n'] + more);
    let without = lines_spec(before + seq!['\n'] + rest);
    lemma_begins(before);
    lemma_lines_concat(before, more);
    lemma_lines_concat(before, rest);
    lemma_first_line(line, rest);
    lemma_chomped_line(line);
    lemma_line_drops_out(head, chomp(line), tail);
    assert(with.skip(1) =~= head + (seq![chomp(line)] + tail));
    assert(without.skip(1) =~= head + tail);
    law_other_lines_do_not_matter(before + seq!['\n'] + more, before + seq!['\n'] + rest);
}

// ---------------------------------------------------------------------------
// The order of lines

/// The name of the field that a line holds, if it holds one.
pub open spec fn line_name(line: Seq<char>) -> Option<Seq<char>> {
    match split_once_spec(line, seq![':', ' ']) {
        Some((name, _)) => Some(trim_spec(name)),
        None => None,
    }
}

/// Both are no message, or both are messages with the same code, the same
/// description and the same values under the same names.
pub open spec fn same_message(a: Option<MessageView>, b: Option<MessageView>) -> bool {
    match (a, b) {
        (Some(m), Some(n)) => {
            &&& m.code == n.code
            &&& m.description == n.description
            &&& same_fields(m.fields, n.fields)
        },
        (None, None) => true,
        _ => false,
    }
}

/// What a line does to the value of a name.
spec fn value_after(line: Seq<char>, name: Seq<char>, value: Option<Seq<char>>) -> Option<
    Seq<char>,
> {
    match split_once_spec(line, seq![':', ' ']) {
        Some((found, more)) => if trim_spec(found) == name {
            Some(
                match value {
                    Some(known) => continued(known, trim_spec(more)),
                    None => trim_spec(more),
                },
            )
        } else {
            value
        },
        None => value,
    }
}

/// A line changes the value of its own name alone, and keeps names distinct.
proof fn lemma_value_after(
    fields: Seq<(Seq<char>, Seq<char>)>,
    line: Seq<char>,
    name: Seq<char>,
)
    requires
        names_distinct(fields),
    ensures
        names_distinct(add_line(fields, line)),
        lookup(add_line(fields, line), name) == value_after(line, name, lookup(fields, name)),
{
    if let Some((found, more)) = split_once_spec(line, seq![':', ' ']) {
        lemma_add_field_distinct(fields, trim_spec(found), trim_spec(more));
        law_add_field(fields, trim_spec(found), trim_spec(more), name);
    }
}

/// The same line keeps the same fields the same.
proof fn lemma_same_line(
    a: Seq<(Seq<char>, Seq<char>)>,
    b: Seq<(Seq<char>, Seq<char>)>,
    line: Seq<char>,
)
    requires
        same_fields(a, b),
    ensures
        same_fields(add_line(a, line), add_line(b, line)),
{
    lemma_value_after(a, line, seq![]);
    lemma_value_after(b, line, seq![]);
    assert forall|name: Seq<char>| #[trigger] lookup(add_line(a, line), name) == lookup(
        add_line(b, line),
        name,
    ) by {
        lemma_value_after(a, line, name);
        lemma_value_after(b, line, name);
        assert(lookup(a, name) == lookup(b, name));
    }
}

/// Two lines with different names may come in either order.
proof fn lemma_two_lines(fields: Seq<(Seq<char>, Seq<char>)>, x: Seq<char>, y: Seq<char>)
    requires
        names_distinct(fields),
        line_name(x) is Some ==> line_name(x) != line_name(y),
    ensures
        same_fields(add_line(add_line(fields, x), y), add_line(add_line(fields, y), x)),
{
    let xy = add_line(add_line(fields, x), y);
    let yx = add_line(add_line(fields, y), x);
    lemma_value_after(fields, x, seq![]);
    lemma_value_after(fields, y, seq![]);
    lemma_value_after(add_line(fields, x), y, seq![]);
    lemma_value_after(add_line(fields, y), x, seq![]);
    assert forall|name: Seq<char>| #[trigger] lookup(xy, name) == lookup(yx, name) by {
        lemma_value_after(fields, x, name);
        lemma_value_after(fields, y, name);
        lemma_value_after(add_line(fields, x), y, name);
        lemma_value_after(add_line(fields, y), x, name);
    }
}

/// Lines hold each name once.
proof fn lemma_fields_of_distinct(body: Seq<Seq<char>>)
    ensures
        names_distinct(fields_of(body)),
    decreases body.len(),
{
    if body.len() > 0 {
        lemma_fields_of_distinct(body.drop_last());
        lemma_value_after(fields_of(body.drop_last()), body.last(), seq![]);
    }
}

/// The lines with those at `k` and after it exchanged.
pub open spec fn exchanged(lines: Seq<Seq<char>>, k: int) -> Seq<Seq<char>> {
    lines.update(k, lines[k + 1]).update(k + 1, lines[k])
}

/// Two adjacent lines with different names hold the same fields in either order.
proof fn lemma_exchanged(body: Seq<Seq<char>>, k: int)
    requires
        0 <= k < body.len() - 1,
        line_name(body[k]) is Some ==> line_name(body[k]) != line_name(body[k + 1]),
    ensures
        same_fields(fields_of(body), fields_of(exchanged(body, k))),
    decreases body.len(),
{
    let init = body.drop_last();
    let other = exchanged(body, k);
    if k == body.len() - 2 {
        let before = init.drop_last();
        assert(other.drop_last().drop_last() =~= before);
        lemma_fields_of_distinct(before);
        lemma_two_lines(fields_of(before), body[k], body[k + 1]);
        reveal_with_fuel(fields_of, 3);
        assert(init.last() == body[k] && other.drop_last().last() == body[k + 1]);
    } else {
        lemma_exchanged(init, k);
        assert(other.drop_last() =~= exchanged(init, k));
        assert(other.last() == body.last());
        lemma_same_line(fields_of(init), fields_of(other.drop_last()), body.last());
    }
}

/// Two adjacent lines after the first one may be exchanged, unless they hold fields
/// of the same name: the same message is read.
pub proof fn law_lines_may_be_exchanged(a: Seq<char>, b: Seq<char>, k: int)
    requires
        1 <= k < lines_spec(a).len() - 1,
        lines_spec(b) == exchanged(lines_spec(a), k),
        line_name(lines_spec(a)[k]) is Some ==> line_name(lines_spec(a)[k]) != line_name(
            lines_spec(a)[k + 1],
        ),
    ensures
        same_message(parse_spec(a), parse_spec(b)),
{
    let body = lines_spec(a).skip(1);
    lemma_exchanged(body, k - 1);
    assert(lines_spec(b).skip(1) =~= exchanged(body, k - 1));
    assert(lines_spec(b)[0] == lines_spec(a)[0]);
}

} // verus!
