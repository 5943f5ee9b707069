//! Messages between APT and an acquire method: a status line with a code and a
//! description, `name: value` lines, and an empty line at the end.

use vstd::prelude::*;

use crate::fields::{Fields, add_field, names_distinct, lemma_add_field_distinct};
use crate::text::{
    decimal, decimal_spec, lines, lines_spec, parse_u32, parse_u32_spec, split_once,
    split_once_spec, texts, trim, trim_spec,
};

verus! {

/// What a message says.
pub struct MessageView {
    pub code: u32,
    pub description: Seq<char>,
    pub fields: Seq<(Seq<char>, Seq<char>)>,
}

/// A message.
#[derive(Debug)]
pub struct Message {
    pub code: u32,
    pub description: String,
    pub fields: Fields,
}

impl View for Message {
    type V = MessageView;

    open spec fn view(&self) -> MessageView {
        MessageView { code: self.code, description: self.description@, fields: self.fields@ }
    }
}

/// The fields after one more line: a line without a colon and a space adds
/// nothing; the name and the value of any other lose the white space around them.
pub open spec fn add_line(
    fields: Seq<(Seq<char>, Seq<char>)>,
    line: Seq<char>,
) -> Seq<(Seq<char>, Seq<char>)> {
    match split_once_spec(line, seq![':', ' ']) {
        Some((name, value)) => add_field(fields, trim_spec(name), trim_spec(value)),
        None => fields,
    }
}

/// The fields that lines hold.
pub open spec fn fields_of(body: Seq<Seq<char>>) -> Seq<(Seq<char>, Seq<char>)>
    decreases body.len(),
{
    if body.len() == 0 {
        seq![]
    } else {
        add_line(fields_of(body.drop_last()), body.last())
    }
}

/// The message that a text holds. Its first line is a number, a space and a
/// description; the lines after it are fields.
pub open spec fn parse_spec(input: Seq<char>) -> Option<MessageView> {
    let all = lines_spec(input);
    if all.len() == 0 {
        None
    } else {
        match split_once_spec(all[0], seq![' ']) {
            Some((number, description)) => match parse_u32_spec(number) {
                Some(code) => Some(
                    MessageView { code, description, fields: fields_of(all.skip(1)) },
                ),
                None => None,
            },
            None => None,
        }
    }
}

/// The line of a field, with its line ending.
pub open spec fn field_text(field: (Seq<char>, Seq<char>)) -> Seq<char> {
    field.0 + seq![':', ' '] + field.1 + seq!['\n']
}

/// The lines of fields, one after the other.
pub open spec fn fields_text(fields: Seq<(Seq<char>, Seq<char>)>) -> Seq<char>
    decreases fields.len(),
{
    if fields.len() == 0 {
        seq![]
    } else {
        fields_text(fields.drop_last()) + field_text(fields.last())
    }
}

/// The status line of a message, with its line ending.
pub open spec fn status_text(code: u32, description: Seq<char>) -> Seq<char> {
    decimal_spec(code as nat) + seq![' '] + description + seq!['\n']
}

/// The text of a message.
pub open spec fn format_spec(
    code: u32,
    description: Seq<char>,
    fields: Seq<(Seq<char>, Seq<char>)>,
) -> Seq<char> {
    status_text(code, description) + fields_text(fields) + seq!['\n']
}

/// The texts that pairs of string slices hold.
pub open spec fn slice_pairs(fields: Seq<(&str, &str)>) -> Seq<(Seq<char>, Seq<char>)> {
    Seq::new(fields.len(), |i: int| (fields[i].0@, fields[i].1@))
}

impl Message {
    /// Reads a message. There is none in a text whose first line does not begin
    /// with a number of 32 bits and a space.
    pub fn parse(input: &str) -> (message: Option<Self>)
        ensures
            match message {
                Some(m) => parse_spec(input@) == Some(m@) && names_distinct(m.fields@),
                None => parse_spec(input@) is None,
            },
    {
        proof {
            reveal_strlit(" ");
            reveal_strlit(": ");
            assert(" "@ =~= seq![' ']);
            assert(": "@ =~= seq![':', ' ']);
        }
        let all = lines(input);
        let ghost spec_lines = lines_spec(input@);
        assert(texts(all@) == spec_lines);
        if all.len() == 0 {
            return None;
        }
        assert(all@[0]@ == spec_lines[0]);
        let (number, description) = match split_once(all[0].as_str(), " ") {
            Some(halves) => halves,
            None => return None,
        };
        let code: u32 = match parse_u32(number.as_str()) {
            Some(code) => code,
            None => return None,
        };
        let mut fields = Fields::new();
        let mut i: usize = 1;
        assert(spec_lines.skip(1).take(0) =~= Seq::<Seq<char>>::empty());
        while i < all.len()
            invariant
                texts(all@) == spec_lines,
                1 <= i <= all@.len(),
                ": "@ == seq![':', ' '],
                fields@ == fields_of(spec_lines.skip(1).take(i - 1)),
                names_distinct(fields@),
            decreases all@.len() - i,
        {
            proof {
                let body = spec_lines.skip(1);
                assert(body.take(i as int).drop_last() =~= body.take(i - 1));
                assert(body.take(i as int).last() == all@[i as int]@);
            }
            match split_once(all[i].as_str(), ": ") {
                Some((name, value)) => {
                    let name = trim(name.as_str());
                    let value = trim(value.as_str());
                    proof {
                        lemma_add_field_distinct(fields@, name@, value@);
                    }
                    fields.add(name.as_str(), value.as_str());
                },
                None => {},
            }
            i += 1;
        }
        assert(spec_lines.skip(1).take(i - 1) =~= spec_lines.skip(1));
        Some(Message { code, description, fields })
    }

    /// Writes a message.
    pub fn format(code: u32, description: &str, fields: &[(&str, &str)]) -> (text: String)
        ensures
            text@ == format_spec(code, description@, slice_pairs(fields@)),
    {
        proof {
            reveal_strlit(": ");
            assert(": "@ =~= seq![':', ' ']);
        }
        let mut out = decimal(code as u64);
        out.push(' ');
        out.append(description);
        out.push('\n');
        let ghost pairs = slice_pairs(fields@);
        assert(out@ =~= status_text(code, description@) + fields_text(pairs.take(0)));
        let mut i: usize = 0;
        while i < fields.len()
            invariant
                i <= fields@.len(),
                pairs == slice_pairs(fields@),
                ": "@ == seq![':', ' '],
                out@ == status_text(code, description@) + fields_text(pairs.take(i as int)),
            decreases fields@.len() - i,
        {
            let (name, value) = fields[i];
            let ghost before = out@;
            out.append(name);
            out.append(": ");
            out.append(value);
            out.push('\n');
            proof {
                assert(pairs.take(i + 1).drop_last() =~= pairs.take(i as int));
                assert(pairs.take(i + 1).last() == (name@, value@));
                assert(out@ =~= before + field_text((name@, value@)));
                assert(out@ =~= status_text(code, description@) + (fields_text(
                    pairs.take(i as int),
                ) + field_text((name@, value@))));
            }
            i += 1;
        }
        assert(pairs.take(i as int) =~= pairs);
        out.push('\n');
        assert(out@ =~= format_spec(code, description@, pairs));
        out
    }
}

} // verus!
