//! Text primitives of the message format: searching, splitting, trimming,
//! folding case and reading or writing decimal numbers.

use vstd::prelude::*;

verus! {

/// `String::push` appends `ch` to the end of the string and changes nothing else.
pub assume_specification[ String::push ](s: &mut String, ch: char)
    ensures
        final(s)@ == old(s)@.push(ch),
;

// ---------------------------------------------------------------------------
// Characters and sequences of characters

/// The characters of a string, in order.
pub fn chars_of(s: &str) -> (chars: Vec<char>)
    ensures
        chars@ == s@,
{
    let mut chars: Vec<char> = Vec::new();
    for c in it: s.chars()
        invariant
            it.seq() == s@,
            chars@ == s@.take(it.index()),
    {
        chars.push(c);
    }
    chars
}

/// The string made of `chars[from..to]`.
pub fn string_of(chars: &[char], from: usize, to: usize) -> (s: String)
    requires
        from <= to <= chars@.len(),
    ensures
        s@ == chars@.subrange(from as int, to as int),
{
    let mut s = String::new();
    let mut i: usize = from;
    while i < to
        invariant
            from <= i <= to <= chars@.len(),
            s@ == chars@.subrange(from as int, i as int),
        decreases to - i,
    {
        s.push(chars[i]);
        i += 1;
    }
    s
}

// ---------------------------------------------------------------------------
// Searching and splitting

/// `pattern` stands in `s` at position `i`.
pub open spec fn occurs(s: Seq<char>, pattern: Seq<char>, i: int) -> bool {
    0 <= i && i + pattern.len() <= s.len() && s.subrange(i, i + pattern.len()) == pattern
}

/// The first position at or after `from` where `pattern` stands in `s`.
pub open spec fn find_from(s: Seq<char>, pattern: Seq<char>, from: int) -> Option<int>
    decreases s.len() - from + 1,
{
    if from + pattern.len() > s.len() {
        None
    } else if occurs(s, pattern, from) {
        Some(from)
    } else {
        find_from(s, pattern, from + 1)
    }
}

/// What stands before the first `separator`, and what stands after it.
pub open spec fn split_once_spec(s: Seq<char>, separator: Seq<char>) -> Option<
    (Seq<char>, Seq<char>),
> {
    match find_from(s, separator, 0) {
        Some(i) => Some((s.take(i), s.skip(i + separator.len()))),
        None => None,
    }
}

/// A search that succeeds ends at an occurrence with none before it; one that
/// fails has none to find.
pub proof fn lemma_find_from(s: Seq<char>, pattern: Seq<char>, from: int)
    requires
        0 <= from,
    ensures
        match find_from(s, pattern, from) {
            Some(i) => {
                &&& from <= i
                &&& occurs(s, pattern, i)
                &&& forall|j: int| from <= j < i ==> !occurs(s, pattern, j)
            },
            None => forall|j: int| from <= j ==> !occurs(s, pattern, j),
        },
    decreases s.len() - from + 1,
{
    if from + pattern.len() <= s.len() && !occurs(s, pattern, from) {
        lemma_find_from(s, pattern, from + 1);
    }
}

/// An occurrence with none before it is the one that a search finds.
pub proof fn lemma_find_is_first(s: Seq<char>, pattern: Seq<char>, from: int, i: int)
    requires
        0 <= from <= i,
        occurs(s, pattern, i),
        forall|j: int| from <= j < i ==> !occurs(s, pattern, j),
    ensures
        find_from(s, pattern, from) == Some(i),
{
    lemma_find_from(s, pattern, from);
}

/// `pattern` stands in `s` at position `i`, decided character by character.
fn occurs_at(s: &[char], pattern: &[char], i: usize) -> (found: bool)
    requires
        i <= s@.len(),
    ensures
        found == occurs(s@, pattern@, i as int),
{
    if pattern.len() > s.len() - i {
        return false;
    }
    let mut k: usize = 0;
    while k < pattern.len()
        invariant
            k <= pattern@.len(),
            i + pattern@.len() <= s@.len() <= usize::MAX,
            forall|j: int| 0 <= j < k ==> s@[i + j] == pattern@[j],
        decreases pattern@.len() - k,
    {
        if s[i + k] != pattern[k] {
            proof {
                let window = s@.subrange(i as int, i + pattern@.len());
                assert(window[k as int] != pattern@[k as int]);
            }
            return false;
        }
        k += 1;
    }
    assert(s@.subrange(i as int, i + pattern@.len()) =~= pattern@);
    true
}

/// The first position at or after `from` where `pattern` stands in `s`.
pub fn find(s: &[char], pattern: &[char], from: usize) -> (position: Option<usize>)
    requires
        from <= s@.len(),
    ensures
        match position {
            Some(i) => find_from(s@, pattern@, from as int) == Some(i as int),
            None => find_from(s@, pattern@, from as int) is None,
        },
{
    let mut i: usize = from;
    while i < s.len() && pattern.len() <= s.len() - i
        invariant
            i <= s@.len(),
            find_from(s@, pattern@, from as int) == find_from(s@, pattern@, i as int),
        decreases s@.len() - i,
    {
        if occurs_at(s, pattern, i) {
            return Some(i);
        }
        i += 1;
    }
    if pattern.len() == 0 {
        assert(s@.subrange(i as int, i as int) =~= pattern@);
        Some(i)
    } else {
        None
    }
}

/// Splits `s` at the first `separator`, which belongs to neither half.
pub fn split_once(s: &str, separator: &str) -> (halves: Option<(String, String)>)
    ensures
        match halves {
            Some((before, after)) => split_once_spec(s@, separator@) == Some((before@, after@)),
            None => split_once_spec(s@, separator@) is None,
        },
{
    let text = chars_of(s);
    let mark = chars_of(separator);
    match find(&text, &mark, 0) {
        Some(i) => {
            proof {
                lemma_find_from(s@, separator@, 0);
                assert(i + mark.len() <= text.len());
            }
            let before = string_of(&text, 0, i);
            let after = string_of(&text, i + mark.len(), text.len());
            assert(before@ =~= s@.take(i as int));
            assert(after@ =~= s@.skip(i + separator@.len()));
            Some((before, after))
        },
        None => None,
    }
}

/// `s` without the copies of `prefix` that it begins with.
pub open spec fn strip_prefixes(s: Seq<char>, prefix: Seq<char>) -> Seq<char>
    decreases s.len(),
{
    if prefix.len() > 0 && occurs(s, prefix, 0) {
        strip_prefixes(s.skip(prefix.len() as int), prefix)
    } else {
        s
    }
}

/// `s` without the copies of `prefix` that it begins with.
pub fn trim_start_matches(s: &str, prefix: &str) -> (rest: String)
    ensures
        rest@ == strip_prefixes(s@, prefix@),
{
    let text = chars_of(s);
    let mark = chars_of(prefix);
    let mut start: usize = 0;
    assert(s@.skip(0) =~= s@);
    while mark.len() > 0 && occurs_at(&text, &mark, start)
        invariant
            text@ == s@,
            mark@ == prefix@,
            start <= text@.len(),
            strip_prefixes(s@, prefix@) == strip_prefixes(s@.skip(start as int), prefix@),
        decreases text@.len() - start,
    {
        proof {
            let rest = s@.skip(start as int);
            assert(rest.subrange(0, prefix@.len() as int) =~= s@.subrange(
                start as int,
                start + prefix@.len(),
            ));
            assert(rest.skip(prefix@.len() as int) =~= s@.skip(start + prefix@.len()));
            assert(start + mark.len() <= text.len());
        }
        start += mark.len();
    }
    proof {
        let rest = s@.skip(start as int);
        if prefix@.len() > 0 && occurs(rest, prefix@, 0) {
            assert(rest.subrange(0, prefix@.len() as int) =~= s@.subrange(
                start as int,
                start + prefix@.len(),
            ));
        }
        assert(s@.subrange(start as int, s@.len() as int) =~= rest);
    }
    string_of(&text, start, text.len())
}

// ---------------------------------------------------------------------------
// Lines

/// A line without the carriage return that ends it, if one does.
pub open spec fn chomp(line: Seq<char>) -> Seq<char> {
    if line.len() > 0 && line.last() == '\r' {
        line.drop_last()
    } else {
        line
    }
}

/// The lines of a text. A line ends at a line feed, and a carriage return right
/// before the line feed belongs to the line ending. The last line needs no line
/// ending; a carriage return that ends such a line belongs to it.
pub open spec fn lines_spec(s: Seq<char>) -> Seq<Seq<char>>
    decreases s.len(),
{
    if s.len() == 0 {
        seq![]
    } else {
        match split_once_spec(s, seq!['\n']) {
            Some((line, rest)) => {
                proof {
                    lemma_find_from(s, seq!['\n'], 0);
                }
                seq![chomp(line)] + lines_spec(rest)
            },
            None => seq![s],
        }
    }
}

/// The texts that strings hold.
pub open spec fn texts(strings: Seq<String>) -> Seq<Seq<char>> {
    Seq::new(strings.len(), |i: int| strings[i]@)
}

/// The lines of a text, without their line endings.
pub fn lines(s: &str) -> (found: Vec<String>)
    ensures
        texts(found@) == lines_spec(s@),
{
    let text = chars_of(s);
    let newline: [char; 1] = ['\n'];
    let mut found: Vec<String> = Vec::new();
    let mut start: usize = 0;
    assert(text@.skip(0) =~= s@);
    while start < text.len()
        invariant
            text@ == s@,
            newline@ == seq!['\n'],
            start <= text@.len(),
            lines_spec(s@) == texts(found@) + lines_spec(s@.skip(start as int)),
        decreases text@.len() - start,
    {
        let ghost rest = s@.skip(start as int);
        match find(&text, &newline, start) {
            Some(end) => {
                proof {
                    lemma_find_from(s@, seq!['\n'], start as int);
                    lemma_find_shift(s@, seq!['\n'], start as int);
                    assert(s@.subrange(end as int, end + 1)[0] == '\n');
                    assert(rest.take(end - start) =~= s@.subrange(start as int, end as int));
                    assert(rest.skip(end - start + 1) =~= s@.skip(end + 1));
                }
                let stop: usize = if end > start && text[end - 1] == '\r' {
                    end - 1
                } else {
                    end
                };
                let line = string_of(&text, start, stop);
                let ghost before = texts(found@);
                found.push(line);
                proof {
                    assert(line@ =~= chomp(rest.take(end - start)));
                    assert(texts(found@) =~= before.push(line@));
                    assert(texts(found@) + lines_spec(s@.skip(end + 1)) =~= before + (seq![line@]
                        + lines_spec(s@.skip(end + 1))));
                }
                start = end + 1;
            },
            None => {
                proof {
                    lemma_find_shift(s@, seq!['\n'], start as int);
                }
                let line = string_of(&text, start, text.len());
                let ghost before = texts(found@);
                found.push(line);
                proof {
                    assert(line@ =~= rest);
                    assert(texts(found@) =~= before + seq![line@]);
                }
                return found;
            },
        }
    }
    assert(s@.skip(start as int) =~= Seq::<char>::empty());
    assert(texts(found@) + Seq::<Seq<char>>::empty() =~= texts(found@));
    found
}

/// A search from `from` is a search of what stands from there on.
proof fn lemma_find_shift(s: Seq<char>, pattern: Seq<char>, from: int)
    requires
        0 <= from <= s.len(),
    ensures
        find_from(s.skip(from), pattern, 0) == (match find_from(s, pattern, from) {
            Some(i) => Some(i - from),
            None => None,
        }),
{
    let rest = s.skip(from);
    assert forall|j: int| 0 <= j implies #[trigger] occurs(rest, pattern, j) == occurs(
        s,
        pattern,
        from + j,
    ) by {
        if j + pattern.len() <= rest.len() {
            assert(rest.subrange(j, j + pattern.len()) =~= s.subrange(
                from + j,
                from + j + pattern.len(),
            ));
        }
    }
    lemma_find_from(s, pattern, from);
    lemma_find_from(rest, pattern, 0);
    match find_from(s, pattern, from) {
        Some(i) => {
            assert(occurs(rest, pattern, i - from));
        },
        None => {},
    }
}

// ---------------------------------------------------------------------------
// White space

/// The character has the Unicode property `White_Space`.
pub open spec fn is_whitespace(c: char) -> bool {
    ||| '\u{9}' <= c <= '\u{d}'
    ||| c == ' '
    ||| c == '\u{85}'
    ||| c == '\u{a0}'
    ||| c == '\u{1680}'
    ||| '\u{2000}' <= c <= '\u{200a}'
    ||| '\u{2028}' <= c <= '\u{2029}'
    ||| c == '\u{202f}'
    ||| c == '\u{205f}'
    ||| c == '\u{3000}'
}

/// Every character is white space.
pub open spec fn is_blank(s: Seq<char>) -> bool {
    forall|i: int| 0 <= i < s.len() ==> is_whitespace(s[i])
}

/// `s` without the white space that it begins with.
pub open spec fn trim_start(s: Seq<char>) -> Seq<char>
    decreases s.len(),
{
    if s.len() > 0 && is_whitespace(s.first()) {
        trim_start(s.drop_first())
    } else {
        s
    }
}

/// `s` without the white space that it ends with.
pub open spec fn trim_end(s: Seq<char>) -> Seq<char>
    decreases s.len(),
{
    if s.len() > 0 && is_whitespace(s.last()) {
        trim_end(s.drop_last())
    } else {
        s
    }
}

/// `s` without the white space at either end.
pub open spec fn trim_spec(s: Seq<char>) -> Seq<char> {
    trim_end(trim_start(s))
}

/// White space alone is what trimming leaves nothing of.
pub proof fn law_blank_is_trimmed_away(s: Seq<char>)
    ensures
        is_blank(s) <==> trim_spec(s).len() == 0,
    decreases s.len(),
{
    if s.len() > 0 {
        if is_whitespace(s.first()) {
            let rest = s.drop_first();
            law_blank_is_trimmed_away(rest);
            if is_blank(rest) {
                assert forall|i: int| 0 <= i < s.len() implies is_whitespace(s[i]) by {
                    if i > 0 {
                        assert(s[i] == rest[i - 1]);
                    }
                }
            }
        } else {
            assert(!is_blank(s));
            lemma_trim_end_keeps(s);
        }
    }
}

/// Trimming the end of a text stops at a character that is not white space.
proof fn lemma_trim_end_keeps(s: Seq<char>)
    requires
        s.len() > 0,
        !is_whitespace(s[0]),
    ensures
        trim_end(s).len() > 0,
    decreases s.len(),
{
    if is_whitespace(s.last()) {
        lemma_trim_end_keeps(s.drop_last());
    }
}

/// The character has the Unicode property `White_Space`.
pub fn whitespace(c: char) -> (white: bool)
    ensures
        white == is_whitespace(c),
{
    ('\u{9}' <= c && c <= '\u{d}') || c == ' ' || c == '\u{85}' || c == '\u{a0}' || c == '\u{1680}'
        || ('\u{2000}' <= c && c <= '\u{200a}') || ('\u{2028}' <= c && c <= '\u{2029}')
        || c == '\u{202f}' || c == '\u{205f}' || c == '\u{3000}'
}

/// `s` without the white space at either end.
pub fn trim(s: &str) -> (trimmed: String)
    ensures
        trimmed@ == trim_spec(s@),
{
    let text = chars_of(s);
    let mut start: usize = 0;
    assert(s@.skip(0) =~= s@);
    while start < text.len() && whitespace(text[start])
        invariant
            text@ == s@,
            start <= text@.len(),
            trim_start(s@) == trim_start(s@.skip(start as int)),
        decreases text@.len() - start,
    {
        assert(s@.skip(start as int).drop_first() =~= s@.skip(start + 1));
        start += 1;
    }
    let mut end: usize = text.len();
    assert(s@.subrange(start as int, end as int) =~= s@.skip(start as int));
    while end > start && whitespace(text[end - 1])
        invariant
            text@ == s@,
            start <= end <= text@.len(),
            trim_spec(s@) == trim_end(s@.subrange(start as int, end as int)),
        decreases end,
    {
        assert(s@.subrange(start as int, end as int).drop_last() =~= s@.subrange(
            start as int,
            end - 1,
        ));
        end -= 1;
    }
    string_of(&text, start, end)
}

/// Every character is white space.
pub fn blank(s: &str) -> (white: bool)
    ensures
        white == is_blank(s@),
{
    for c in it: s.chars()
        invariant
            it.seq() == s@,
            forall|i: int| 0 <= i < it.index() ==> is_whitespace(s@[i]),
    {
        if !whitespace(c) {
            assert(!is_whitespace(s@[it.index()]));
            return false;
        }
    }
    true
}

// ---------------------------------------------------------------------------
// Letter case

/// An ASCII letter in lower case; any other character unchanged.
pub open spec fn ascii_lower(c: char) -> char {
    if 'A' <= c <= 'Z' {
        (c as u8 + 32) as char
    } else {
        c
    }
}

/// `s` with its ASCII letters in lower case.
pub open spec fn ascii_lowercase(s: Seq<char>) -> Seq<char> {
    Seq::new(s.len(), |i: int| ascii_lower(s[i]))
}

/// The two texts differ at most in the case of ASCII letters.
pub open spec fn same_ignoring_ascii_case(a: Seq<char>, b: Seq<char>) -> bool {
    ascii_lowercase(a) == ascii_lowercase(b)
}

/// An ASCII letter in lower case; any other character unchanged.
fn lower(c: char) -> (lowered: char)
    ensures
        lowered == ascii_lower(c),
{
    if 'A' <= c && c <= 'Z' {
        (c as u8 + 32) as char
    } else {
        c
    }
}

/// The two texts differ at most in the case of ASCII letters.
pub fn eq_ignore_ascii_case(a: &str, b: &str) -> (same: bool)
    ensures
        same == same_ignoring_ascii_case(a@, b@),
{
    let left = chars_of(a);
    let right = chars_of(b);
    if left.len() != right.len() {
        assert(ascii_lowercase(a@).len() != ascii_lowercase(b@).len());
        return false;
    }
    let mut i: usize = 0;
    while i < left.len()
        invariant
            left@ == a@,
            right@ == b@,
            left@.len() == right@.len(),
            i <= left@.len(),
            forall|j: int| 0 <= j < i ==> ascii_lower(a@[j]) == ascii_lower(b@[j]),
        decreases left@.len() - i,
    {
        if lower(left[i]) != lower(right[i]) {
            assert(ascii_lowercase(a@)[i as int] != ascii_lowercase(b@)[i as int]);
            return false;
        }
        i += 1;
    }
    assert(ascii_lowercase(a@) =~= ascii_lowercase(b@));
    true
}

/// The lower case, by Unicode's rules, of a text that is not all ASCII and whose
/// ASCII letters are in lower case already.
pub uninterp spec fn unicode_lowercase(s: Seq<char>) -> Seq<char>;

/// The lower case of a text: of an all-ASCII one, letter by letter; of any
/// other, by Unicode's rules. The case of its ASCII letters does not matter.
pub open spec fn lowercase_spec(s: Seq<char>) -> Seq<char> {
    if vstd::utf8::is_ascii_chars(s) {
        ascii_lowercase(s)
    } else {
        unicode_lowercase(ascii_lowercase(s))
    }
}

/// Calls `str::to_lowercase`. It maps an all-ASCII text letter by letter, `A` to
/// `Z` becoming `a` to `z`. What it makes of any other text depends on that text
/// alone, and not on the case of the ASCII letters in it: each becomes its lower
/// case, and the one character whose lower case depends on others, a capital
/// sigma, asks only whether letters stand beside it. The result goes by the name
/// `unicode_lowercase`.
#[verifier::external_body]
pub(crate) fn lowercase(s: &str) -> (lowered: String)
    ensures
        vstd::utf8::is_ascii_chars(s@) ==> lowered@ == ascii_lowercase(s@),
        !vstd::utf8::is_ascii_chars(s@) ==> lowered@ == unicode_lowercase(
            ascii_lowercase(s@),
        ),
{
    s.to_lowercase()
}

// ---------------------------------------------------------------------------
// Decimal numbers

/// The character is an ASCII digit.
pub open spec fn is_digit(c: char) -> bool {
    '0' <= c <= '9'
}

/// One or more ASCII digits.
pub open spec fn is_numeral(s: Seq<char>) -> bool {
    s.len() > 0 && forall|i: int| 0 <= i < s.len() ==> is_digit(s[i])
}

/// The number that decimal digits denote.
pub open spec fn numeral_value(s: Seq<char>) -> nat
    decreases s.len(),
{
    if s.len() == 0 {
        0
    } else {
        numeral_value(s.drop_last()) * 10 + (s.last() as nat - '0' as nat) as nat
    }
}

/// The digit with the value `d`.
pub open spec fn digit(d: nat) -> char {
    ('0' as nat + d) as char
}

/// The decimal digits of `n`, without leading zeros.
pub open spec fn decimal_spec(n: nat) -> Seq<char>
    decreases n,
{
    if n < 10 {
        seq![digit(n)]
    } else {
        decimal_spec(n / 10).push(digit(n % 10))
    }
}

/// The number that a text denotes: digits, with at most one plus sign before
/// them, whose value fits in 32 bits.
pub open spec fn parse_u32_spec(s: Seq<char>) -> Option<u32> {
    let digits = if s.len() > 0 && s[0] == '+' {
        s.skip(1)
    } else {
        s
    };
    if is_numeral(digits) && numeral_value(digits) <= u32::MAX {
        Some(numeral_value(digits) as u32)
    } else {
        None
    }
}

/// The digits of a number denote that number.
pub proof fn lemma_decimal_value(n: nat)
    ensures
        is_numeral(decimal_spec(n)),
        numeral_value(decimal_spec(n)) == n,
    decreases n,
{
    let s = decimal_spec(n);
    if n < 10 {
        assert(s.drop_last() =~= Seq::<char>::empty());
        assert(numeral_value(s.drop_last()) == 0);
    } else {
        lemma_decimal_value(n / 10);
        assert(s.drop_last() =~= decimal_spec(n / 10));
    }
}

/// A longer numeral never denotes a smaller number than its beginning.
proof fn lemma_numeral_value_grows(s: Seq<char>, i: int)
    requires
        is_numeral(s),
        0 <= i <= s.len(),
    ensures
        numeral_value(s.take(i)) <= numeral_value(s),
    decreases s.len() - i,
{
    if i < s.len() {
        assert(s.take(i + 1).drop_last() =~= s.take(i));
        lemma_numeral_value_grows(s, i + 1);
    } else {
        assert(s.take(i) =~= s);
    }
}

/// Reads a decimal number of 32 bits; a plus sign may stand before it.
pub fn parse_u32(s: &str) -> (number: Option<u32>)
    ensures
        number == parse_u32_spec(s@),
{
    let text = chars_of(s);
    let start: usize = if text.len() > 0 && text[0] == '+' {
        1
    } else {
        0
    };
    let ghost digits = s@.skip(start as int);
    assert(s@.skip(0) =~= s@);
    if start == text.len() {
        return None;
    }
    let mut value: u32 = 0;
    let mut i: usize = start;
    while i < text.len()
        invariant
            text@ == s@,
            start <= i <= text@.len(),
            digits == s@.skip(start as int),
            digits == (if s@.len() > 0 && s@[0] == '+' {
                s@.skip(1)
            } else {
                s@
            }),
            forall|j: int| 0 <= j < i - start ==> is_digit(digits[j]),
            value == numeral_value(digits.take(i - start)),
        decreases text@.len() - i,
    {
        let c = text[i];
        if c < '0' || c > '9' {
            assert(!is_digit(digits[i - start]));
            return None;
        }
        let d: u32 = c as u32 - '0' as u32;
        proof {
            let longer = digits.take(i - start + 1);
            assert(longer.drop_last() =~= digits.take(i - start));
            assert(numeral_value(longer) == value * 10 + d);
            if is_numeral(digits) {
                lemma_numeral_value_grows(digits, i - start + 1);
            }
        }
        if value > (u32::MAX - d) / 10 {
            return None;
        }
        value = value * 10 + d;
        i += 1;
    }
    assert(digits.take(i - start) =~= digits);
    Some(value)
}

/// The decimal digits of a number, without leading zeros.
pub fn decimal(n: u64) -> (s: String)
    ensures
        s@ == decimal_spec(n as nat),
{
    let mut reversed: Vec<char> = Vec::new();
    let mut rest: u64 = n;
    while rest >= 10
        invariant
            decimal_spec(n as nat) == decimal_spec(rest as nat) + reversed@.reverse(),
        decreases rest,
    {
        let ghost before = reversed@;
        reversed.push(digit_char(rest % 10));
        proof {
            let head = decimal_spec((rest / 10) as nat);
            let last = digit((rest % 10) as nat);
            assert(decimal_spec(rest as nat) == head.push(last));
            assert(before.push(last).reverse() =~= seq![last] + before.reverse());
            assert(head.push(last) + before.reverse() =~= head + (seq![last] + before.reverse()));
        }
        rest = rest / 10;
    }
    let mut s = String::new();
    s.push(digit_char(rest));
    let mut left: usize = reversed.len();
    assert(s@ =~= decimal_spec(rest as nat));
    let ghost first = s@;
    while left > 0
        invariant
            left <= reversed@.len(),
            s@ == first + reversed@.skip(left as int).reverse(),
        decreases left,
    {
        left -= 1;
        proof {
            assert(reversed@.skip(left as int).reverse() =~= reversed@.skip(left + 1).reverse().push(
                reversed@[left as int],
            ));
        }
        s.push(reversed[left]);
    }
    assert(reversed@.skip(0) =~= reversed@);
    s
}

/// The digit with the value `d`.
fn digit_char(d: u64) -> (c: char)
    requires
        d < 10,
    ensures
        c == digit(d as nat),
{
    (('0' as u8) + d as u8) as char
}

} // verus!
