//! What the text primitives do, in terms of the characters that go in and come out.

use vstd::arithmetic::div_mod::lemma_div_denominator;
use vstd::arithmetic::power::{lemma_pow_positive, pow};
use vstd::prelude::*;

use crate::roundtrip::{lemma_first_line, lemma_no_feed};
use crate::text::{
    ascii_lowercase, chomp, decimal_spec, find_from, is_blank, is_digit, is_numeral, is_whitespace,
    lemma_find_from, lines_spec, lowercase_spec, numeral_value, occurs, parse_u32_spec,
    same_ignoring_ascii_case, split_once_spec, strip_prefixes, texts, trim_end, trim_spec,
    trim_start, unicode_lowercase,
};

verus! {

// ---------------------------------------------------------------------------
// Searching and splitting

/// A search gives the first place, from where it begins, at which the pattern can be
/// read off character by character. It fails only where there is no such place.
pub proof fn law_find(s: Seq<char>, pattern: Seq<char>, from: int)
    requires
        0 <= from,
    ensures
        match find_from(s, pattern, from) {
            Some(i) => {
                &&& from <= i <= s.len() - pattern.len()
                &&& forall|k: int| 0 <= k < pattern.len() ==> s[i + k] == #[trigger] pattern[k]
                &&& forall|j: int| from <= j < i ==> #[trigger] s.subrange(j, j + pattern.len())
                    != pattern
            },
            None => forall|j: int|
                from <= j <= s.len() - pattern.len() ==> #[trigger] s.subrange(
                    j,
                    j + pattern.len(),
                ) != pattern,
        },
{
    lemma_find_from(s, pattern, from);
    match find_from(s, pattern, from) {
        Some(i) => {
            let window = s.subrange(i, i + pattern.len());
            assert forall|k: int| 0 <= k < pattern.len() implies s[i + k]
                == #[trigger] pattern[k] by {
                assert(window[k] == s[i + k]);
            }
            assert forall|j: int| from <= j < i implies #[trigger] s.subrange(
                j,
                j + pattern.len(),
            ) != pattern by {
                assert(!occurs(s, pattern, j));
            }
        },
        None => {
            assert forall|j: int| from <= j <= s.len() - pattern.len() implies
                #[trigger] s.subrange(j, j + pattern.len()) != pattern by {
                assert(!occurs(s, pattern, j));
            }
        },
    }
}

/// The two halves of a text that was split make up the text again with the separator
/// between them, and the separator does not stand any earlier. A text that is not
/// split does not hold the separator.
pub proof fn law_split_once(s: Seq<char>, separator: Seq<char>)
    ensures
        match split_once_spec(s, separator) {
            Some((before, after)) => {
                &&& s == before + separator + after
                &&& forall|j: int| 0 <= j < before.len() ==> #[trigger] s.subrange(
                    j,
                    j + separator.len(),
                ) != separator
            },
            None => forall|j: int|
                0 <= j <= s.len() - separator.len() ==> #[trigger] s.subrange(
                    j,
                    j + separator.len(),
                ) != separator,
        },
{
    law_find(s, separator, 0);
    if let Some((before, after)) = split_once_spec(s, separator) {
        assert(s =~= before + separator + after);
    }
}

/// A prefix is taken off as often as it stands in front, and nothing else is. An empty
/// prefix takes off nothing.
pub proof fn law_strip_prefixes(s: Seq<char>, prefix: Seq<char>)
    ensures
        strip_prefixes(prefix + s, prefix) == strip_prefixes(s, prefix),
        prefix.len() == 0 ==> strip_prefixes(s, prefix) == s,
        s.len() < prefix.len() || s.take(prefix.len() as int) != prefix ==> strip_prefixes(
            s,
            prefix,
        ) == s,
{
    let n = prefix.len() as int;
    assert((prefix + s).subrange(0, n) =~= prefix);
    assert((prefix + s).skip(n) =~= s);
    if s.len() >= n {
        assert(s.subrange(0, n) =~= s.take(n));
    }
}

/// The lines of a text: an empty text has none; a text without a line feed is one
/// line; a line feed, or a carriage return and a line feed, ends a line, and what
/// follows is read by itself.
pub proof fn law_lines(line: Seq<char>, rest: Seq<char>)
    requires
        forall|i: int| 0 <= i < line.len() ==> line[i] != '\n',
    ensures
        lines_spec(seq![]).len() == 0,
        line.len() > 0 ==> lines_spec(line) == seq![line],
        (line.len() > 0 ==> line.last() != '\r') ==> lines_spec(line + seq!['\n'] + rest)
            == seq![line] + lines_spec(rest),
        lines_spec(line + seq!['\r', '\n'] + rest) == seq![line] + lines_spec(rest),
{
    let returned = line.push('\r');
    lemma_no_feed(line);
    lemma_first_line(line, rest);
    lemma_first_line(returned, rest);
    assert(chomp(returned) =~= line);
    assert(line + seq!['\r', '\n'] + rest =~= returned + seq!['\n'] + rest);
}

/// The texts of strings, one by one.
pub proof fn law_texts(strings: Seq<String>, i: int)
    requires
        0 <= i < strings.len(),
    ensures
        texts(strings).len() == strings.len(),
        texts(strings)[i] == strings[i]@,
{
}

// ---------------------------------------------------------------------------
// White space

/// White space is a tab, a line feed, a vertical tab, a form feed, a carriage return,
/// a space, or one of Unicode's other blank characters.
pub proof fn law_whitespace(c: char)
    ensures
        is_whitespace(c) <==> {
            ||| 9 <= c as int <= 13
            ||| c as int == 32
            ||| c as int == 0x85
            ||| c as int == 0xa0
            ||| c as int == 0x1680
            ||| 0x2000 <= c as int <= 0x200a
            ||| c as int == 0x2028
            ||| c as int == 0x2029
            ||| c as int == 0x202f
            ||| c as int == 0x205f
            ||| c as int == 0x3000
        },
{
}

/// A text is blank when each of its characters is white space.
pub proof fn law_blank(s: Seq<char>)
    ensures
        is_blank(s) <==> s.all(|c: char| is_whitespace(c)),
{
    let white = |c: char| is_whitespace(c);
    if s.all(white) {
        assert forall|i: int| 0 <= i < s.len() implies is_whitespace(s[i]) by {
            assert(white(s[i]));
        }
    }
}

/// What trimming the start leaves, and where it begins.
proof fn lemma_trim_start(s: Seq<char>) -> (a: int)
    ensures
        0 <= a <= s.len(),
        trim_start(s) == s.skip(a),
        a < s.len() ==> !is_whitespace(s[a]),
        forall|k: int| 0 <= k < a ==> is_whitespace(s[k]),
    decreases s.len(),
{
    if s.len() > 0 && is_whitespace(s.first()) {
        let rest = s.drop_first();
        let a = lemma_trim_start(rest);
        assert(rest.skip(a) =~= s.skip(a + 1));
        assert forall|k: int| 0 <= k < a + 1 implies is_whitespace(s[k]) by {
            if k > 0 {
                assert(is_whitespace(rest[k - 1]));
            }
        }
        a + 1
    } else {
        assert(s.skip(0) =~= s);
        0
    }
}

/// What trimming the end leaves, and where it ends.
proof fn lemma_trim_end(s: Seq<char>) -> (b: int)
    ensures
        0 <= b <= s.len(),
        trim_end(s) == s.take(b),
        b > 0 ==> !is_whitespace(s[b - 1]),
        forall|k: int| b <= k < s.len() ==> is_whitespace(s[k]),
    decreases s.len(),
{
    if s.len() > 0 && is_whitespace(s.last()) {
        let init = s.drop_last();
        let b = lemma_trim_end(init);
        assert(init.take(b) =~= s.take(b));
        assert forall|k: int| b <= k < s.len() implies is_whitespace(s[k]) by {
            if k < s.len() - 1 {
                assert(is_whitespace(init[k]));
            }
        }
        b
    } else {
        assert(s.take(s.len() as int) =~= s);
        s.len() as int
    }
}

/// What trimming leaves is a stretch of the text with nothing more to trim.
pub proof fn lemma_trimmed(s: Seq<char>) -> (range: (int, int))
    ensures
        0 <= range.0 <= range.1 <= s.len(),
        trim_spec(s) == s.subrange(range.0, range.1),
        forall|k: int| 0 <= k < range.0 ==> is_whitespace(s[k]),
        forall|k: int| range.1 <= k < s.len() ==> is_whitespace(s[k]),
        range.0 < range.1 ==> !is_whitespace(s[range.0]) && !is_whitespace(s[range.1 - 1]),
        trim_spec(trim_spec(s)) == trim_spec(s),
{
    let a = lemma_trim_start(s);
    let rest = s.skip(a);
    let b = lemma_trim_end(rest);
    let trimmed = rest.take(b);
    assert(trimmed =~= s.subrange(a, a + b));
    if b > 0 {
        assert(trimmed[0] == s[a]);
        assert(trimmed.last() == rest[b - 1]);
    }
    assert(trim_start(trimmed) == trimmed);
    assert(trim_end(trimmed) == trimmed);
    assert forall|k: int| a + b <= k < s.len() implies is_whitespace(s[k]) by {
        assert(is_whitespace(rest[k - a]));
    }
    (a, a + b)
}

/// Every text is white space, then what trimming leaves of it, then white space. What
/// trimming leaves neither begins nor ends with white space.
pub proof fn law_trim_takes_off_white_space_alone(s: Seq<char>)
    ensures
        exists|before: Seq<char>, after: Seq<char>|
            {
                &&& s == #[trigger] (before + trim_spec(s) + after)
                &&& forall|k: int| 0 <= k < before.len() ==> is_whitespace(before[k])
                &&& forall|k: int| 0 <= k < after.len() ==> is_whitespace(after[k])
            },
        trim_spec(s).len() > 0 ==> !is_whitespace(trim_spec(s)[0]) && !is_whitespace(
            trim_spec(s)[trim_spec(s).len() - 1],
        ),
{
    let (a, b) = lemma_trimmed(s);
    let before = s.take(a);
    let after = s.skip(b);
    assert(s =~= before + trim_spec(s) + after);
}

/// A text that neither begins nor ends with white space comes out of trimming
/// unchanged, whatever white space is put around it.
pub proof fn law_trim_keeps_the_rest(before: Seq<char>, core: Seq<char>, after: Seq<char>)
    requires
        forall|k: int| 0 <= k < before.len() ==> is_whitespace(before[k]),
        forall|k: int| 0 <= k < after.len() ==> is_whitespace(after[k]),
        core.len() > 0 ==> !is_whitespace(core[0]) && !is_whitespace(core[core.len() - 1]),
    ensures
        trim_spec(before + core + after) == core,
        trim_spec(core) == core,
{
    lemma_trim_between(before, core, after);
    lemma_trim_between(seq![], core, seq![]);
    assert(seq![] + core + seq![] =~= core);
}

/// Trimming takes off the white space around a text.
proof fn lemma_trim_between(before: Seq<char>, core: Seq<char>, after: Seq<char>)
    requires
        forall|k: int| 0 <= k < before.len() ==> is_whitespace(before[k]),
        forall|k: int| 0 <= k < after.len() ==> is_whitespace(after[k]),
        core.len() > 0 ==> !is_whitespace(core[0]) && !is_whitespace(core[core.len() - 1]),
    ensures
        trim_spec(before + core + after) == core,
{
    let s = before + core + after;
    let (a, b) = lemma_trimmed(s);
    let (from, to) = (before.len() as int, before.len() + core.len());
    if core.len() == 0 {
        assert forall|k: int| 0 <= k < s.len() implies is_whitespace(s[k]) by {
            if k < from {
                assert(s[k] == before[k]);
            } else {
                assert(s[k] == after[k - to]);
            }
        }
        assert(a == b);
        assert(trim_spec(s) =~= core);
    } else {
        assert(s[from] == core[0]);
        assert(s[to - 1] == core[core.len() - 1]);
        assert(a <= from && to <= b);
        if a < from {
            assert(s[a] == before[a]);
        }
        if to < b {
            assert(s[b - 1] == after[b - 1 - to]);
        }
        assert(s.subrange(a, b) =~= core);
    }
}

// ---------------------------------------------------------------------------
// Letter case

/// Lowering ASCII letters changes `A` to `Z`, each to the letter 32 places on, and
/// leaves every other character.
pub proof fn law_ascii_lowercase(s: Seq<char>, i: int)
    requires
        0 <= i < s.len(),
    ensures
        ascii_lowercase(s).len() == s.len(),
        ascii_lowercase(s)[i] as int == (if 65 <= s[i] as int <= 90 {
            s[i] as int + 32
        } else {
            s[i] as int
        }),
{
}

/// Two texts are the same but for the case of ASCII letters when they are of the same
/// length and, place by place, hold the same character or the two cases of a letter.
pub proof fn law_same_ignoring_ascii_case(a: Seq<char>, b: Seq<char>)
    ensures
        same_ignoring_ascii_case(a, b) <==> {
            &&& a.len() == b.len()
            &&& forall|i: int|
                0 <= i < a.len() ==> {
                    ||| #[trigger] a[i] == #[trigger] b[i]
                    ||| 65 <= a[i] as int <= 90 && b[i] as int == a[i] as int + 32
                    ||| 65 <= b[i] as int <= 90 && a[i] as int == b[i] as int + 32
                }
        },
{
    let (low_a, low_b) = (ascii_lowercase(a), ascii_lowercase(b));
    if low_a == low_b {
        assert(a.len() == low_a.len() && b.len() == low_b.len());
        assert forall|i: int| 0 <= i < a.len() implies {
            ||| #[trigger] a[i] == #[trigger] b[i]
            ||| 65 <= a[i] as int <= 90 && b[i] as int == a[i] as int + 32
            ||| 65 <= b[i] as int <= 90 && a[i] as int == b[i] as int + 32
        } by {
            assert(low_a[i] == low_b[i]);
        }
    }
    if a.len() == b.len() && forall|i: int|
        0 <= i < a.len() ==> {
            ||| #[trigger] a[i] == #[trigger] b[i]
            ||| 65 <= a[i] as int <= 90 && b[i] as int == a[i] as int + 32
            ||| 65 <= b[i] as int <= 90 && a[i] as int == b[i] as int + 32
        } {
        assert forall|i: int| 0 <= i < low_a.len() implies low_a[i] == low_b[i] by {
            assert(a[i] == b[i] || a[i] != b[i]);
            law_ascii_lowercase(a, i);
            law_ascii_lowercase(b, i);
        }
        assert(low_a =~= low_b);
    }
}

/// The lower case of an ASCII text has the same length and, place by place, the
/// letter in lower case or the same character.
pub proof fn law_lowercase_of_ascii(s: Seq<char>)
    requires
        forall|i: int| 0 <= i < s.len() ==> 0 <= (#[trigger] s[i]) as int <= 127,
    ensures
        lowercase_spec(s).len() == s.len(),
        forall|i: int|
            0 <= i < s.len() ==> (#[trigger] lowercase_spec(s)[i]) as int == (if 65 <= s[i] as int
                <= 90 {
                s[i] as int + 32
            } else {
                s[i] as int
            }),
{
    assert forall|i: int| 0 <= i < s.len() implies '\0' <= #[trigger] s[i] <= '\u{7f}' by {}
    assert(vstd::utf8::is_ascii_chars(s));
}

/// The lower case of a text with another character than ASCII is what Unicode's rules
/// make of it, whatever the case of its ASCII letters.
pub proof fn law_lowercase_of_other_texts(s: Seq<char>, i: int)
    requires
        0 <= i < s.len(),
        s[i] as int > 127,
    ensures
        lowercase_spec(s) == unicode_lowercase(ascii_lowercase(s)),
{
    assert(!('\0' <= s[i] <= '\u{7f}'));
}

// ---------------------------------------------------------------------------
// Decimal numbers

/// The numeral of a number is positional: `i` places from its right end stands the
/// digit of the power `i` of ten. It has just the places that the number needs, and no
/// zero in front but for zero itself.
pub proof fn law_decimal_places(n: nat)
    ensures
        decimal_spec(n).len() > 0,
        n < pow(10, decimal_spec(n).len()),
        decimal_spec(n).len() > 1 ==> pow(10, (decimal_spec(n).len() - 1) as nat) <= n,
        decimal_spec(n).len() > 1 ==> decimal_spec(n)[0] != '0',
        forall|i: int|
            0 <= i < decimal_spec(n).len() ==> (#[trigger] decimal_spec(n)[decimal_spec(n).len()
                - 1 - i]) as int == 48 + (n as int / pow(10, i as nat)) % 10,
    decreases n,
{
    reveal(pow);
    let s = decimal_spec(n);
    assert(pow(10, 0) == 1);
    if n < 10 {
        assert(pow(10, 1) == 10 * pow(10, 0));
        assert forall|i: int| 0 <= i < s.len() implies (#[trigger] s[s.len() - 1 - i]) as int
            == 48 + (n as int / pow(10, i as nat)) % 10 by {
            assert(i == 0);
            assert(n as int / 1 == n);
        }
    } else {
        let head = decimal_spec(n / 10);
        law_decimal_places(n / 10);
        assert(s == head.push(s.last()));
        assert(pow(10, s.len()) == 10 * pow(10, head.len()));
        assert(pow(10, head.len()) == 10 * pow(10, (head.len() - 1) as nat));
        assert forall|i: int| 0 <= i < s.len() implies (#[trigger] s[s.len() - 1 - i]) as int
            == 48 + (n as int / pow(10, i as nat)) % 10 by {
            if i == 0 {
                assert(n as int / 1 == n);
            } else {
                let smaller = pow(10, (i - 1) as nat);
                assert(s[s.len() - 1 - i] == head[head.len() - 1 - (i - 1)]);
                lemma_pow_positive(10, (i - 1) as nat);
                assert(pow(10, i as nat) == 10 * smaller);
                lemma_div_denominator(n as int, 10, smaller);
            }
        }
        if head.len() == 1 {
            assert(head[head.len() - 1 - 0] as int == 48 + ((n / 10) as int / pow(10, 0)) % 10);
            assert((n / 10) as int / 1 == (n / 10) as int);
            assert(head[0] == head[head.len() - 1 - 0]);
            assert((n / 10) as int % 10 != 0);
        }
        assert(s[0] == head[0]);
    }
}

/// The sum of ten times numbers is ten times their sum.
proof fn lemma_sum_of_tenfold(a: Seq<int>, b: Seq<int>)
    requires
        a.len() == b.len(),
        forall|i: int| 0 <= i < a.len() ==> b[i] == 10 * a[i],
    ensures
        b.fold_left(0int, |sum: int, x: int| sum + x) == 10 * a.fold_left(
            0int,
            |sum: int, x: int| sum + x,
        ),
    decreases a.len(),
{
    if a.len() > 0 {
        lemma_sum_of_tenfold(a.drop_last(), b.drop_last());
        assert(b.last() == 10 * a.last());
    }
}

/// Digits denote the sum, over their places, of the digit times the power of ten of
/// the place.
pub proof fn law_numeral_places(s: Seq<char>)
    requires
        forall|i: int| 0 <= i < s.len() ==> 48 <= (#[trigger] s[i]) as int <= 57,
    ensures
        numeral_value(s) == Seq::new(
            s.len(),
            |i: int| (s[i] as int - 48) * pow(10, (s.len() - 1 - i) as nat),
        ).fold_left(0int, |sum: int, x: int| sum + x),
    decreases s.len(),
{
    reveal(pow);
    let places = Seq::new(
        s.len(),
        |i: int| (s[i] as int - 48) * pow(10, (s.len() - 1 - i) as nat),
    );
    if s.len() > 0 {
        let init = s.drop_last();
        let before = Seq::new(
            init.len(),
            |i: int| (init[i] as int - 48) * pow(10, (init.len() - 1 - i) as nat),
        );
        assert forall|i: int| 0 <= i < init.len() implies 48 <= (#[trigger] init[i]) as int
            <= 57 by {
            assert(init[i] == s[i]);
        }
        law_numeral_places(init);
        assert forall|i: int| 0 <= i < before.len() implies places.drop_last()[i] == 10
            * before[i] by {
            let d = s[i] as int - 48;
            let smaller = pow(10, (init.len() - 1 - i) as nat);
            assert(pow(10, (s.len() - 1 - i) as nat) == 10 * smaller);
            assert(d * (10 * smaller) == 10 * (d * smaller)) by (nonlinear_arith);
        }
        lemma_sum_of_tenfold(before, places.drop_last());
        assert(48 <= s[s.len() - 1] as int <= 57);
        assert(pow(10, 0) == 1);
        assert(places.last() == s.last() as int - 48);
    }
}

/// Digits, with a plus sign before them or without, are read as the number that they
/// denote if that fits in 32 bits, and as none otherwise.
pub proof fn law_digits_are_read(digits: Seq<char>)
    requires
        digits.len() > 0,
        forall|i: int| 0 <= i < digits.len() ==> 48 <= (#[trigger] digits[i]) as int <= 57,
    ensures
        numeral_value(digits) <= 0xffff_ffff ==> {
            &&& parse_u32_spec(digits) == Some(numeral_value(digits) as u32)
            &&& parse_u32_spec(seq!['+'] + digits) == Some(numeral_value(digits) as u32)
        },
        numeral_value(digits) > 0xffff_ffff ==> {
            &&& parse_u32_spec(digits) is None
            &&& parse_u32_spec(seq!['+'] + digits) is None
        },
{
    assert forall|i: int| 0 <= i < digits.len() implies is_digit(digits[i]) by {
        assert(48 <= digits[i] as int <= 57);
    }
    assert(is_numeral(digits));
    assert(digits[0] != '+');
    assert((seq!['+'] + digits).skip(1) =~= digits);
}

/// A text is no number where it is empty, a plus sign alone, or holds another character
/// than a digit, but for a plus sign in front.
pub proof fn law_other_texts_are_no_numbers(s: Seq<char>)
    requires
        ({
            ||| s.len() == 0
            ||| s == seq!['+']
            ||| exists|i: int|
                0 <= i < s.len() && !(48 <= (#[trigger] s[i]) as int <= 57) && !(i == 0 && s[0]
                    == '+')
        }),
    ensures
        parse_u32_spec(s) is None,
{
    if s.len() > 0 && s != seq!['+'] {
        let i = choose|i: int|
            0 <= i < s.len() && !(48 <= (#[trigger] s[i]) as int <= 57) && !(i == 0 && s[0] == '+');
        if s[0] == '+' {
            assert(s.skip(1)[i - 1] == s[i]);
            assert(!is_digit(s.skip(1)[i - 1]));
        } else {
            assert(!is_digit(s[i]));
        }
    }
}

} // verus!
