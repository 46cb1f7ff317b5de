//! Character-level helpers shared by the tokenizer and the sampler.

use vstd::prelude::*;

verus! {

/// Whether `c` is whitespace: one of the characters that Unicode gives
/// the property `White_Space`.
pub open spec fn whitespace(c: char) -> bool {
    let code = c as u32;
    ||| 0x0009 <= code <= 0x000D
    ||| code == 0x0020
    ||| code == 0x0085
    ||| code == 0x00A0
    ||| code == 0x1680
    ||| 0x2000 <= code <= 0x200A
    ||| code == 0x2028
    ||| code == 0x2029
    ||| code == 0x202F
    ||| code == 0x205F
    ||| code == 0x3000
}

/// Whether `c` has the Unicode `Uppercase` property.
pub uninterp spec fn uppercase(c: char) -> bool;

/// A token as the contracts see it: its characters in order.
pub type Token = Seq<char>;

/// The tokens held by a vector of strings.
pub open spec fn views(strings: Seq<String>) -> Seq<Token> {
    strings.map_values(|s: String| s@)
}

/// Whether the last character of `token` is a literal period.
pub open spec fn ends_with_period(token: Token) -> bool {
    token.len() > 0 && token.last() == '.'
}

/// Whether the first character of `token` is uppercase.
pub open spec fn leads_uppercase(token: Token) -> bool {
    token.len() > 0 && uppercase(token[0])
}

/// The parts in order, with `separator` between each two of them.
pub open spec fn joined(parts: Seq<Seq<char>>, separator: Seq<char>) -> Seq<char>
    decreases parts.len(),
{
    if parts.len() == 0 {
        seq![]
    } else if parts.len() == 1 {
        parts[0]
    } else {
        joined(parts.drop_last(), separator) + separator + parts.last()
    }
}

/// The tokens joined with single spaces.
pub open spec fn spaced(tokens: Seq<Token>) -> Seq<char> {
    joined(tokens, seq![' '])
}

/// The character that stands for the digit `d`.
pub open spec fn digit(d: int) -> char {
    if d == 0 {
        '0'
    } else if d == 1 {
        '1'
    } else if d == 2 {
        '2'
    } else if d == 3 {
        '3'
    } else if d == 4 {
        '4'
    } else if d == 5 {
        '5'
    } else if d == 6 {
        '6'
    } else if d == 7 {
        '7'
    } else if d == 8 {
        '8'
    } else {
        '9'
    }
}

/// The decimal digits of `n`, the most significant first.
pub open spec fn natural_digits(n: nat) -> Seq<char>
    decreases n,
{
    if n < 10 {
        seq![digit(n as int)]
    } else {
        natural_digits(n / 10).push(digit((n % 10) as int))
    }
}

/// `n` in decimal notation, with a minus sign if it is negative.
pub open spec fn decimal_digits(n: int) -> Seq<char> {
    if n < 0 {
        seq!['-'] + natural_digits((-n) as nat)
    } else {
        natural_digits(n as nat)
    }
}

/// The punctuation that may end a quote.
pub open spec fn is_closing(c: char) -> bool {
    c == '.' || c == ',' || c == '!' || c == '?'
}

/// Whether `text` ends in closing punctuation that has at least one
/// character before it.
pub open spec fn is_closed(text: Seq<char>) -> bool {
    text.len() >= 2 && is_closing(text.last())
}

/// `text` with a period appended unless it is closed already.
pub open spec fn closed(text: Seq<char>) -> Seq<char> {
    if is_closed(text) {
        text
    } else {
        text.push('.')
    }
}

/// The value of the decimal digit `c`, if it is one.
pub open spec fn digit_value(c: char) -> Option<int> {
    if c == '0' {
        Some(0)
    } else if c == '1' {
        Some(1)
    } else if c == '2' {
        Some(2)
    } else if c == '3' {
        Some(3)
    } else if c == '4' {
        Some(4)
    } else if c == '5' {
        Some(5)
    } else if c == '6' {
        Some(6)
    } else if c == '7' {
        Some(7)
    } else if c == '8' {
        Some(8)
    } else if c == '9' {
        Some(9)
    } else {
        None
    }
}

/// Whether `text` holds decimal digits and nothing else.
pub open spec fn is_digits(text: Seq<char>) -> bool {
    forall|i: int| 0 <= i < text.len() ==> digit_value(#[trigger] text[i]) is Some
}

/// The number that the decimal digits of `text` denote.
pub open spec fn digits_value(text: Seq<char>) -> int
    decreases text.len(),
{
    if text.len() == 0 {
        0
    } else {
        digits_value(text.drop_last()) * 10 + digit_value(text.last())->0
    }
}

/// The number that `text` denotes in decimal notation: an optional plus
/// or minus sign, then at least one digit and nothing but digits. There
/// is none where the text is not of that form, or where the number does
/// not fit 32 signed bits.
pub open spec fn parsed_i32(text: Seq<char>) -> Option<i32> {
    let signed = text.len() > 0 && (text[0] == '-' || text[0] == '+');
    let body = if signed {
        text.drop_first()
    } else {
        text
    };
    let value = if text.len() > 0 && text[0] == '-' {
        -digits_value(body)
    } else {
        digits_value(body)
    };
    if body.len() > 0 && is_digits(body) && i32::MIN <= value <= i32::MAX {
        Some(value as i32)
    } else {
        None
    }
}

/// The value of the decimal digit `c`, if it is one.
fn digit_of(c: char) -> (value: Option<i64>)
    ensures
        match value {
            Some(d) => digit_value(c) == Some(d as int) && 0 <= d <= 9,
            None => digit_value(c) is None,
        },
{
    if c == '0' {
        Some(0)
    } else if c == '1' {
        Some(1)
    } else if c == '2' {
        Some(2)
    } else if c == '3' {
        Some(3)
    } else if c == '4' {
        Some(4)
    } else if c == '5' {
        Some(5)
    } else if c == '6' {
        Some(6)
    } else if c == '7' {
        Some(7)
    } else if c == '8' {
        Some(8)
    } else if c == '9' {
        Some(9)
    } else {
        None
    }
}

/// Reads `text` as a number in decimal notation.
pub fn parse_i32(text: &str) -> (number: Option<i32>)
    ensures
        number == parsed_i32(text@),
{
    let chars = chars_of(text);
    let negative = chars.len() > 0 && chars[0] == '-';
    let signed = chars.len() > 0 && (chars[0] == '-' || chars[0] == '+');
    let start: usize = if signed {
        1
    } else {
        0
    };
    let ghost body = chars@.skip(start as int);
    proof {
        if signed {
            assert(body =~= text@.drop_first());
        } else {
            assert(body =~= text@);
        }
    }
    if start == chars.len() {
        return None;
    }
    let mut magnitude: i64 = 0;
    let mut beyond = false;
    let mut i: usize = start;
    while i < chars.len()
        invariant
            start <= i <= chars.len(),
            chars@ == text@,
            signed == (text@.len() > 0 && (text@[0] == '-' || text@[0] == '+')),
            body == if signed {
                text@.drop_first()
            } else {
                text@
            },
            body == chars@.skip(start as int),
            is_digits(body.take(i - start)),
            0 <= magnitude <= 0x8000_0000,
            !beyond ==> magnitude == digits_value(body.take(i - start)),
            beyond ==> digits_value(body.take(i - start)) > 0x8000_0000,
        decreases chars.len() - i,
    {
        let ghost seen = body.take(i - start);
        let ghost now = body.take(i - start + 1);
        proof {
            assert(now.drop_last() =~= seen);
            assert(now.last() == chars[i as int]);
        }
        match digit_of(chars[i]) {
            Some(d) => {
                proof {
                    assert forall|j: int| 0 <= j < now.len() implies digit_value(
                        #[trigger] now[j],
                    ) is Some by {
                        if j < now.len() - 1 {
                            assert(now[j] == seen[j]);
                        }
                    }
                }
                if !beyond {
                    let wider = magnitude * 10 + d;
                    if wider > 0x8000_0000 {
                        beyond = true;
                    } else {
                        magnitude = wider;
                    }
                }
            },
            None => {
                proof {
                    assert(body[i - start] == chars[i as int]);
                }
                return None;
            },
        }
        i = i + 1;
    }
    proof {
        assert(body.take(i - start) =~= body);
    }
    if beyond {
        None
    } else if negative {
        Some((-magnitude) as i32)
    } else if magnitude <= 0x7fff_ffff {
        Some(magnitude as i32)
    } else {
        None
    }
}

/// Whether `c` is whitespace.
pub fn is_whitespace(c: char) -> (b: bool)
    ensures
        b == whitespace(c),
{
    let code = c as u32;
    (0x0009 <= code && code <= 0x000D) || code == 0x0020 || code == 0x0085 || code == 0x00A0
        || code == 0x1680 || (0x2000 <= code && code <= 0x200A) || code == 0x2028 || code
        == 0x2029 || code == 0x202F || code == 0x205F || code == 0x3000
}

/// Calls `char::is_uppercase`, which reports the Unicode `Uppercase`
/// property of `c`.
#[verifier::external_body]
pub(crate) fn is_uppercase(c: char) -> (b: bool)
    ensures
        b == uppercase(c),
{
    c.is_uppercase()
}

/// Calls `String::push`, which appends `c` to the end of `s`.
#[verifier::external_body]
pub(crate) fn push_char(s: &mut String, c: char)
    ensures
        final(s)@ == old(s)@.push(c),
{
    s.push(c)
}

/// The characters of `text`, in order.
pub fn chars_of(text: &str) -> (chars: Vec<char>)
    ensures
        chars@ == text@,
{
    let mut chars: Vec<char> = Vec::new();
    for c in it: text.chars()
        invariant
            it.seq() == text@,
            chars@ == it.seq().take(it.index()),
    {
        chars.push(c);
    }
    chars
}

/// The string made of `chars[from..to]`.
pub fn string_of(chars: &Vec<char>, from: usize, to: usize) -> (s: String)
    requires
        from <= to <= chars.len(),
    ensures
        s@ == chars@.subrange(from as int, to as int),
{
    let mut s = String::new();
    let mut i: usize = from;
    while i < to
        invariant
            from <= i <= to <= chars.len(),
            s@ == chars@.subrange(from as int, i as int),
        decreases to - i,
    {
        push_char(&mut s, chars[i]);
        i = i + 1;
    }
    s
}

/// The last character of `text`, if it has one.
pub fn last_char(text: &str) -> (last: Option<char>)
    ensures
        last == if text@.len() > 0 {
            Some(text@.last())
        } else {
            None::<char>
        },
{
    let mut last: Option<char> = None;
    for c in it: text.chars()
        invariant
            it.seq() == text@,
            last == if it.index() > 0 {
                Some(it.seq()[it.index() - 1])
            } else {
                None::<char>
            },
    {
        last = Some(c);
    }
    last
}

/// Whether `token` ends with a literal period.
pub fn has_trailing_period(token: &str) -> (b: bool)
    ensures
        b == ends_with_period(token@),
{
    match last_char(token) {
        Some(c) => c == '.',
        None => false,
    }
}

/// Whether `token` starts with an uppercase character.
pub fn starts_uppercase(token: &str) -> (b: bool)
    ensures
        b == leads_uppercase(token@),
{
    let mut first: Option<char> = None;
    for c in it: token.chars()
        invariant
            it.seq() == token@,
            first == if it.index() > 0 {
                Some(it.seq()[0])
            } else {
                None::<char>
            },
    {
        if first.is_none() {
            first = Some(c);
        }
    }
    match first {
        Some(c) => is_uppercase(c),
        None => false,
    }
}

/// Joins `parts` with `separator` between each two of them.
pub fn join(parts: &Vec<String>, separator: &str) -> (text: String)
    ensures
        text@ == joined(views(parts@), separator@),
{
    let ghost all = views(parts@);
    let mut text = String::new();
    let mut i: usize = 0;
    while i < parts.len()
        invariant
            i <= parts.len(),
            all == views(parts@),
            text@ == joined(all.take(i as int), separator@),
        decreases parts.len() - i,
    {
        proof {
            let now = all.take(i + 1);
            assert(now.drop_last() =~= all.take(i as int));
            assert(now.last() == parts[i as int]@);
            if i == 0 {
                assert(now[0] == parts[0]@);
                assert(text@ + parts[0]@ =~= parts[0]@);
            }
        }
        if i > 0 {
            text.append(separator);
        }
        text.append(parts[i].as_str());
        i = i + 1;
    }
    proof {
        assert(all.take(i as int) =~= all);
    }
    text
}

/// Joins `tokens` with single spaces.
pub fn join_spaced(tokens: &Vec<String>) -> (text: String)
    ensures
        text@ == spaced(views(tokens@)),
{
    proof {
        reveal_strlit(" ");
        assert(" "@ =~= seq![' ']);
    }
    join(tokens, " ")
}

/// The character that stands for the digit `d`.
fn digit_char(d: u32) -> (c: char)
    requires
        d < 10,
    ensures
        c == digit(d as int),
{
    if d == 0 {
        '0'
    } else if d == 1 {
        '1'
    } else if d == 2 {
        '2'
    } else if d == 3 {
        '3'
    } else if d == 4 {
        '4'
    } else if d == 5 {
        '5'
    } else if d == 6 {
        '6'
    } else if d == 7 {
        '7'
    } else if d == 8 {
        '8'
    } else {
        '9'
    }
}

/// Appends the decimal digits of `n` to `text`.
fn push_natural(text: &mut String, n: u32)
    ensures
        final(text)@ == old(text)@ + natural_digits(n as nat),
    decreases n,
{
    if n >= 10 {
        push_natural(text, n / 10);
    }
    push_char(text, digit_char(n % 10));
    proof {
        assert(text@ =~= old(text)@ + natural_digits(n as nat));
    }
}

/// `n` in decimal notation.
pub fn decimal(n: i32) -> (text: String)
    ensures
        text@ == decimal_digits(n as int),
{
    let mut text = String::new();
    if n < 0 {
        push_char(&mut text, '-');
        let magnitude: u32 = (-(n as i64)) as u32;
        push_natural(&mut text, magnitude);
        proof {
            assert(text@ =~= seq!['-'] + natural_digits((-n) as nat));
        }
    } else {
        push_natural(&mut text, n as u32);
        proof {
            assert(text@ =~= natural_digits(n as nat));
        }
    }
    text
}

/// A text joined from parts begins with its first part.
pub proof fn lemma_joined_begins(parts: Seq<Seq<char>>, separator: Seq<char>)
    requires
        parts.len() > 0,
    ensures
        parts[0].is_prefix_of(joined(parts, separator)),
    decreases parts.len(),
{
    if parts.len() > 1 {
        let front = parts.drop_last();
        lemma_joined_begins(front, separator);
        assert(front[0] == parts[0]);
        let whole = joined(front, separator) + separator + parts.last();
        assert(whole.subrange(0, parts[0].len() as int) =~= joined(front, separator).subrange(
            0,
            parts[0].len() as int,
        ));
    } else {
        assert(parts[0].subrange(0, parts[0].len() as int) =~= parts[0]);
    }
}

/// Ends `text` with a period unless it ends in closing punctuation that
/// follows at least one other character. What comes back ends in closing
/// punctuation and begins as `text` does.
pub fn close(text: String) -> (finished: String)
    ensures
        finished@ == closed(text@),
        finished@.len() > 0,
        is_closing(finished@.last()),
        text@.is_prefix_of(finished@),
{
    let mut seen: u8 = 0;
    let mut last: char = ' ';
    for c in it: text.as_str().chars()
        invariant
            it.seq() == text@,
            seen as int == if it.index() < 2 {
                it.index()
            } else {
                2
            },
            it.index() > 0 ==> last == it.seq()[it.index() - 1],
    {
        if seen < 2 {
            seen = seen + 1;
        }
        last = c;
    }
    if seen >= 2 && (last == '.' || last == ',' || last == '!' || last == '?') {
        proof {
            assert(text@.subrange(0, text@.len() as int) =~= text@);
        }
        text
    } else {
        let mut finished = text;
        push_char(&mut finished, '.');
        proof {
            assert(finished@.subrange(0, text@.len() as int) =~= text@);
        }
        finished
    }
}

} // verus!
