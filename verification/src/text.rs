//! Text as the proxy reads it: lines, numbers, letter case.
use vstd::prelude::*;
use vstd::string::*;

verus! {

// ---------------------------------------------------------------------------------------------
// Lines
// ---------------------------------------------------------------------------------------------

/// Where the first line feed stands; the length of the text where there is none.
pub open spec fn line_end(text: Seq<char>) -> nat
    decreases text.len(),
{
    if text.len() == 0 || text[0] == '\n' {
        0
    } else {
        1 + line_end(text.skip(1))
    }
}

/// A terminated line without the carriage return that may precede its line feed.
pub open spec fn without_return(line: Seq<char>) -> Seq<char> {
    if line.len() > 0 && line.last() == '\r' {
        line.drop_last()
    } else {
        line
    }
}

/// The lines of a text. A line ends in `\n` or `\r\n`, which are not part of it; the ending of the
/// last line may be missing.
pub open spec fn lines(text: Seq<char>) -> Seq<Seq<char>>
    decreases text.len(),
{
    if text.len() == 0 {
        Seq::empty()
    } else if line_end(text) >= text.len() {
        seq![text]
    } else {
        seq![without_return(text.take(line_end(text) as int))] + lines(
            text.skip(line_end(text) as int + 1),
        )
    }
}

proof fn lemma_line_end(text: Seq<char>)
    ensures
        line_end(text) <= text.len(),
        line_end(text) < text.len() ==> text[line_end(text) as int] == '\n',
        forall|i: int| 0 <= i < line_end(text) ==> text[i] != '\n',
    decreases text.len(),
{
    if text.len() > 0 && text[0] != '\n' {
        lemma_line_end(text.skip(1));
        assert forall|i: int| 0 <= i < line_end(text) implies text[i] != '\n' by {
            if i > 0 {
                assert(text.skip(1)[i - 1] == text[i]);
            }
        }
    }
}

proof fn lemma_line_end_is(text: Seq<char>, n: nat)
    requires
        n <= text.len(),
        n < text.len() ==> text[n as int] == '\n',
        forall|i: int| 0 <= i < n ==> text[i] != '\n',
    ensures
        line_end(text) == n,
{
    lemma_line_end(text);
    if line_end(text) < n {
        assert(text[line_end(text) as int] != '\n');
    }
}

/// These texts, each with a line feed behind it.
pub open spec fn joined(texts: Seq<Seq<char>>) -> Seq<char>
    decreases texts.len(),
{
    if texts.len() == 0 {
        Seq::empty()
    } else {
        texts[0] + seq!['\n'] + joined(texts.skip(1))
    }
}

/// The text can stand on a line of its own: it holds no line feed and does not end in a carriage
/// return.
pub open spec fn is_line(text: Seq<char>) -> bool {
    &&& forall|i: int| 0 <= i < text.len() ==> text[i] != '\n'
    &&& text.len() > 0 ==> text.last() != '\r'
}

/// Texts that are written one on each line are read back as they are, in order.
pub proof fn law_lines_are_read_back(texts: Seq<Seq<char>>)
    requires
        forall|i: int| 0 <= i < texts.len() ==> is_line(#[trigger] texts[i]),
    ensures
        lines(joined(texts)) == texts,
    decreases texts.len(),
{
    if texts.len() > 0 {
        let first = texts[0];
        let tail = texts.skip(1);
        let text = joined(texts);
        assert(is_line(first));
        assert forall|i: int| 0 <= i < tail.len() implies is_line(#[trigger] tail[i]) by {
            assert(tail[i] == texts[i + 1]);
        }
        law_lines_are_read_back(tail);
        lemma_line_end_is(text, first.len());
        assert(text.take(first.len() as int) =~= first);
        assert(text.skip(first.len() as int + 1) =~= joined(tail));
        assert(seq![first] + tail =~= texts);
    } else {
        assert(texts =~= Seq::empty());
    }
}

/// Splits a text into its lines.
pub fn split_lines(text: &str) -> (r: Vec<&str>)
    ensures
        r@.len() == lines(text@).len(),
        forall|i: int| 0 <= i < r@.len() ==> (#[trigger] r@[i])@ == lines(text@)[i],
{
    let mut chars: Vec<char> = Vec::new();
    for c in it: text.chars()
        invariant
            it.seq() == text@,
            chars@ == text@.take(it.index() as int),
    {
        proof {
            assert(text@.take(it.index() as int).push(c) =~= text@.take(it.index() as int + 1));
        }
        chars.push(c);
    }
    assert(chars@ =~= text@);
    let n: usize = chars.len();
    let mut found: Vec<&str> = Vec::new();
    let mut start: usize = 0;
    assert(text@.skip(0) =~= text@);
    while start < n
        invariant
            n == chars@.len(),
            chars@ == text@,
            start <= n,
            found@.len() + lines(text@.skip(start as int)).len() == lines(text@).len(),
            forall|i: int| 0 <= i < found@.len() ==> (#[trigger] found@[i])@ == lines(text@)[i],
            forall|i: int|
                0 <= i < lines(text@.skip(start as int)).len() ==> #[trigger] lines(
                    text@.skip(start as int),
                )[i] == lines(text@)[found@.len() + i],
        decreases n - start,
    {
        let ghost rest = text@.skip(start as int);
        let ghost before = found@;
        let mut end: usize = start;
        while end < n && chars[end] != '\n'
            invariant
                n == chars@.len(),
                start <= end <= n,
                forall|i: int| start <= i < end ==> chars@[i] != '\n',
            decreases n - end,
        {
            end += 1;
        }
        proof {
            lemma_line_end_is(rest, (end - start) as nat);
        }
        if end == n {
            assert(text@.subrange(start as int, n as int) =~= rest);
            found.push(text.substring_char(start, n));
            assert(lines(rest)[0] == rest);
            assert(lines(text@.skip(n as int)) =~= Seq::empty());
            start = n;
        } else {
            let ghost line = rest.take(end - start);
            let ghost tail = rest.skip(end - start + 1);
            assert(tail =~= text@.skip(end as int + 1));
            assert(lines(rest) == seq![without_return(line)] + lines(tail));
            assert(lines(rest)[0] == without_return(line));
            assert forall|i: int| 0 <= i < lines(tail).len() implies #[trigger] lines(tail)[i]
                == lines(text@)[before.len() + 1 + i] by {
                assert(lines(rest)[i + 1] == lines(tail)[i]);
            }
            if end > start && chars[end - 1] == '\r' {
                assert(text@.subrange(start as int, end - 1) =~= without_return(line));
                found.push(text.substring_char(start, end - 1));
            } else {
                assert(text@.subrange(start as int, end as int) =~= without_return(line));
                found.push(text.substring_char(start, end));
            }
            start = end + 1;
        }
    }
    assert(lines(text@.skip(n as int)).len() == 0);
    found
}

// ---------------------------------------------------------------------------------------------
// Numbers
// ---------------------------------------------------------------------------------------------

/// The text without a leading plus sign.
pub open spec fn unsigned_part(text: Seq<char>) -> Seq<char> {
    if text.len() > 0 && text[0] == '+' {
        text.skip(1)
    } else {
        text
    }
}

/// The text is an optional plus sign and at least one decimal digit, and nothing else.
pub open spec fn is_decimal(text: Seq<char>) -> bool {
    &&& unsigned_part(text).len() > 0
    &&& forall|i: int|
        0 <= i < unsigned_part(text).len() ==> '0' <= #[trigger] unsigned_part(text)[i] <= '9'
}

/// The number that a row of decimal digits denotes.
pub open spec fn digits_value(digits: Seq<char>) -> nat
    decreases digits.len(),
{
    if digits.len() == 0 {
        0
    } else {
        digits_value(digits.drop_last()) * 10 + (digits.last() as nat - '0' as nat) as nat
    }
}

/// The number that a decimal text denotes.
pub open spec fn decimal_value(text: Seq<char>) -> nat {
    digits_value(unsigned_part(text))
}

/// The text is decimal and its number is at most `max`.
pub open spec fn is_decimal_up_to(text: Seq<char>, max: nat) -> bool {
    is_decimal(text) && decimal_value(text) <= max
}

/// The words of the error with which `str::parse::<u32>` refuses a text.
pub uninterp spec fn u32_parse_error(text: Seq<char>) -> Seq<char>;

/// The words of the error with which `str::parse::<u64>` refuses a text.
pub uninterp spec fn u64_parse_error(text: Seq<char>) -> Seq<char>;

/// Calls `str::parse::<u32>`. It reads decimal texts whose number fits, and refuses all others;
/// of the words with which it refuses only the name `u32_parse_error` is known.
#[verifier::external_body]
pub(crate) fn parse_u32(text: &str) -> (r: Result<u32, String>)
    ensures
        r is Ok <==> is_decimal_up_to(text@, u32::MAX as nat),
        r matches Ok(n) ==> n == decimal_value(text@),
        r matches Err(reason) ==> reason@ == u32_parse_error(text@),
{
    text.parse::<u32>().map_err(|err| err.to_string())
}

/// Calls `str::parse::<u64>`. It reads decimal texts whose number fits, and refuses all others;
/// of the words with which it refuses only the name `u64_parse_error` is known.
#[verifier::external_body]
pub(crate) fn parse_u64(text: &str) -> (r: Result<u64, String>)
    ensures
        r is Ok <==> is_decimal_up_to(text@, u64::MAX as nat),
        r matches Ok(n) ==> n == decimal_value(text@),
        r matches Err(reason) ==> reason@ == u64_parse_error(text@),
{
    text.parse::<u64>().map_err(|err| err.to_string())
}

// ---------------------------------------------------------------------------------------------
// Letter case
// ---------------------------------------------------------------------------------------------

/// The lower case of an ASCII character.
pub open spec fn ascii_lower(c: char) -> char {
    if 'A' <= c <= 'Z' {
        (c as u32 + 32) as char
    } else {
        c
    }
}

/// A text with the letters `A` to `Z` lowered.
pub open spec fn ascii_lowercase(text: Seq<char>) -> Seq<char> {
    text.map_values(|c: char| ascii_lower(c))
}

/// The text that `str::to_lowercase` returns.
pub uninterp spec fn lowercase(text: Seq<char>) -> Seq<char>;

/// Calls `str::to_lowercase`. On ASCII texts it lowers the letters `A` to `Z` and keeps the rest;
/// on others its result follows the tables of Unicode and goes by the name `lowercase`.
#[verifier::external_body]
pub(crate) fn to_lowercase(text: &str) -> (r: String)
    ensures
        r@ == lowercase(text@),
        text.is_ascii() ==> r@ == ascii_lowercase(text@),
{
    text.to_lowercase()
}

/// Tells whether a string has this text.
pub(crate) fn is_text(string: &String, text: &str) -> (r: bool)
    ensures
        r == (string@ == text@),
{
    *string == text.to_owned()
}

/// Lines end at line feeds and nowhere else: a row of other characters in front of a line feed is a
/// line, without the carriage return that may end it; what follows the line feed is read as if it
/// stood alone; and a last row without a line feed is a line as it is.
pub proof fn law_lines_end_at_line_feeds(row: Seq<char>, rest: Seq<char>)
    requires
        forall|i: int| 0 <= i < row.len() ==> row[i] != '\n',
    ensures
        (row.len() == 0 || row.last() != '\r') ==> lines(row + seq!['\n'] + rest) == seq![row]
            + lines(rest),
        lines(row + seq!['\r', '\n'] + rest) == seq![row] + lines(rest),
        row.len() > 0 ==> lines(row) == seq![row],
        lines(Seq::empty()) == Seq::<Seq<char>>::empty(),
{
    let plain = row + seq!['\n'] + rest;
    lemma_line_end_is(plain, row.len());
    assert(plain.take(row.len() as int) =~= row);
    assert(plain.skip(row.len() as int + 1) =~= rest);
    let returned = row + seq!['\r', '\n'] + rest;
    let line = row.push('\r');
    assert forall|i: int| 0 <= i < line.len() implies returned[i] != '\n' by {
        assert(returned[i] == line[i]);
    }
    lemma_line_end_is(returned, line.len());
    assert(returned.take(line.len() as int) =~= line);
    assert(line.drop_last() =~= row);
    assert(returned.skip(line.len() as int + 1) =~= rest);
    lemma_line_end_is(row, row.len());
}

/// Numbers are written in base ten: a digit alone is its own value, each further digit makes the
/// number in front of it ten times as large and adds to it, and a plus sign in front changes
/// nothing. Nothing else stands in a number.
pub proof fn law_numbers_are_decimal(text: Seq<char>, digit: char)
    requires
        '0' <= digit <= '9',
    ensures
        is_decimal(seq![digit]),
        decimal_value(seq![digit]) == digit as nat - '0' as nat,
        is_decimal(text) ==> is_decimal(text.push(digit)) && decimal_value(text.push(digit)) == 10
            * decimal_value(text) + (digit as nat - '0' as nat),
        is_decimal(text) && text[0] != '+' ==> is_decimal(seq!['+'] + text) && decimal_value(
            seq!['+'] + text,
        ) == decimal_value(text),
        is_decimal(text) ==> forall|i: int|
            0 <= i < text.len() ==> '0' <= #[trigger] text[i] <= '9' || (i == 0 && text[i] == '+'),
        !is_decimal(Seq::empty()) && !is_decimal(seq!['+']),
        forall|max: nat| #[trigger]
            is_decimal_up_to(text, max) <==> is_decimal(text) && decimal_value(text) <= max,
{
    let one = seq![digit];
    assert(unsigned_part(one) == one);
    assert(unsigned_part(seq!['+']).len() == 0);
    assert(unsigned_part(Seq::<char>::empty()).len() == 0);
    assert(one.drop_last() =~= Seq::empty());
    assert(digits_value(one.drop_last()) == 0);
    if is_decimal(text) {
        let digits = unsigned_part(text);
        assert(text.len() > 0);
        let longer = text.push(digit);
        assert(unsigned_part(longer) =~= digits.push(digit));
        assert(digits.push(digit).drop_last() =~= digits);
        assert forall|i: int| 0 <= i < unsigned_part(longer).len() implies '0'
            <= #[trigger] unsigned_part(longer)[i] <= '9' by {
            if i < digits.len() {
                assert(unsigned_part(longer)[i] == digits[i]);
            }
        }
        let signed = seq!['+'] + text;
        assert(unsigned_part(signed) =~= text);
        assert forall|i: int| 0 <= i < text.len() implies '0' <= #[trigger] text[i] <= '9' || (i
            == 0 && text[i] == '+') by {
            if text[0] == '+' {
                if i > 0 {
                    assert(digits[i - 1] == text[i]);
                }
            } else {
                assert(digits[i] == text[i]);
            }
        }
    }
}

/// Lowering the letters of an ASCII text changes the letters `A` to `Z`, each into the letter 32
/// places behind it, and nothing else.
pub proof fn law_lowering_letters(text: Seq<char>, i: int)
    requires
        0 <= i < text.len(),
    ensures
        ascii_lowercase(text).len() == text.len(),
        65 <= text[i] as u32 <= 90 ==> ascii_lowercase(text)[i] as u32 == text[i] as u32 + 32,
        !(65 <= text[i] as u32 <= 90) ==> ascii_lowercase(text)[i] == text[i],
{
}

} // verus!
