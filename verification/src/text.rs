//! Text: comparing strings, decimal numerals, splitting and trimming.
use vstd::prelude::*;

verus! {

/// `String::push` appends one character at the end.
pub assume_specification[ String::push ](s: &mut String, c: char)
    ensures
        final(s)@ == old(s)@.push(c),
;

/// Whether two strings hold the same characters.
pub fn same_text(a: &str, b: &str) -> (r: bool)
    ensures
        r == (a@ == b@),
{
    a.to_owned() == b.to_owned()
}

/// The code point of a character.
pub fn code_of(c: char) -> (r: u32)
    ensures
        r == c as int,
{
    c as u32
}

/// The characters of a string, in order.
pub fn chars_of(s: &str) -> (r: Vec<char>)
    ensures
        r@ == s@,
{
    let mut out: Vec<char> = Vec::new();
    for c in it: s.chars()
        invariant
            out@ == it.seq().take(it.index() as int),
            it.seq() == s@,
    {
        out.push(c);
    }
    proof {
        assert(s@.take(s@.len() as int) == s@);
    }
    out
}

/// The characters `from..to` of a list, as a string.
pub fn text_of(chars: &[char], from: usize, to: usize) -> (r: String)
    requires
        from <= to <= chars@.len(),
    ensures
        r@ == chars@.subrange(from as int, to as int),
{
    let mut out = String::new();
    let mut i: usize = from;
    while i < to
        invariant
            from <= i <= to <= chars@.len(),
            out@ == chars@.subrange(from as int, i as int),
        decreases to - i,
    {
        out.push(chars[i]);
        i = i + 1;
    }
    out
}

/// The decimal digit of a number below ten.
pub open spec fn digit(d: nat) -> char {
    (48 + d) as char
}

/// The decimal numeral of a number, without leading zeros.
pub open spec fn decimal(n: nat) -> Seq<char>
    decreases n,
{
    if n < 10 {
        seq![digit(n)]
    } else {
        decimal(n / 10).push(digit(n % 10))
    }
}

/// The decimal numeral of an integer, with a minus sign in front of a negative one.
pub open spec fn signed_decimal(n: int) -> Seq<char> {
    if n < 0 {
        seq!['-'] + decimal((-n) as nat)
    } else {
        decimal(n as nat)
    }
}

/// Whether a character is a decimal digit.
pub open spec fn is_digit(c: char) -> bool {
    48 <= c as int <= 57
}

/// Whether a text consists of decimal digits only.
pub open spec fn all_digits(s: Seq<char>) -> bool {
    forall|i: int| 0 <= i < s.len() ==> is_digit(#[trigger] s[i])
}

/// The number that a text of decimal digits stands for.
pub open spec fn digits_value(s: Seq<char>) -> nat
    decreases s.len(),
{
    if s.len() == 0 {
        0
    } else {
        (digits_value(s.drop_last()) * 10 + (s.last() as int - 48)) as nat
    }
}

/// The number that a text of at least one digit stands for.
pub open spec fn digits(s: Seq<char>) -> Option<int> {
    if s.len() > 0 && all_digits(s) {
        Some(digits_value(s) as int)
    } else {
        None
    }
}

/// The number that an unsigned numeral stands for: digits, with a plus sign allowed in front.
pub open spec fn unsigned_numeral(s: Seq<char>) -> Option<int> {
    if s.len() > 0 && s[0] == '+' {
        digits(s.skip(1))
    } else {
        digits(s)
    }
}

/// The number that a signed numeral stands for: digits, with a sign allowed in front.
pub open spec fn signed_numeral(s: Seq<char>) -> Option<int> {
    if s.len() > 0 && s[0] == '-' {
        match digits(s.skip(1)) {
            Some(v) => Some(-v),
            None => None,
        }
    } else {
        unsigned_numeral(s)
    }
}

/// `n`, if it lies between the two bounds.
pub open spec fn within(n: Option<int>, low: int, high: int) -> Option<int> {
    match n {
        Some(v) => if low <= v <= high { Some(v) } else { None },
        None => None,
    }
}

/// Appends the decimal numeral of `n`.
pub fn push_decimal(out: &mut String, n: u64)
    ensures
        final(out)@ == old(out)@ + decimal(n as nat),
    decreases n,
{
    if n >= 10 {
        push_decimal(out, n / 10);
    }
    let d: u8 = (n % 10) as u8;
    out.push((48 + d) as char);
}

/// Appends the decimal numeral of `n`, with its sign if it is negative.
pub fn push_signed_decimal(out: &mut String, n: i64)
    ensures
        final(out)@ == old(out)@ + signed_decimal(n as int),
{
    if n < 0 {
        out.push('-');
        let magnitude: i128 = -(n as i128);
        push_decimal(out, magnitude as u64);
    } else {
        push_decimal(out, n as u64);
    }
}

/// The numeral of a number reads back as that number, and is made of digits.
pub proof fn decimal_reads_back(n: nat)
    ensures
        decimal(n).len() > 0,
        all_digits(decimal(n)),
        digits_value(decimal(n)) == n,
        digits(decimal(n)) == Some(n as int),
        unsigned_numeral(decimal(n)) == Some(n as int),
    decreases n,
{
    if n < 10 {
        assert(decimal(n).drop_last() == Seq::<char>::empty());
        assert(digits_value(decimal(n).drop_last()) == 0);
    } else {
        decimal_reads_back(n / 10);
        assert(decimal(n).drop_last() == decimal(n / 10));
    }
    assert(is_digit(decimal(n)[0]));
}

/// Two numbers with the same numeral are the same number.
pub proof fn decimal_is_injective(a: nat, b: nat)
    requires
        decimal(a) == decimal(b),
    ensures
        a == b,
{
    decimal_reads_back(a);
    decimal_reads_back(b);
}

/// A numeral with more digits stands for a number no smaller than any of its prefixes does.
proof fn digits_value_grows(s: Seq<char>, n: int)
    requires
        0 <= n <= s.len(),
        all_digits(s),
    ensures
        digits_value(s.take(n)) <= digits_value(s),
    decreases s.len(),
{
    if n == s.len() {
        assert(s.take(n) == s);
    } else {
        assert(s.drop_last().take(n) == s.take(n));
        digits_value_grows(s.drop_last(), n);
        assert(is_digit(s.last()));
    }
}

/// Reads the digits `from..` of a list as a number, if it does not exceed `limit`.
fn read_digits(chars: &[char], from: usize, limit: u64) -> (r: Option<u64>)
    requires
        from <= chars@.len(),
    ensures
        match r {
            Some(v) => digits(chars@.skip(from as int)) == Some(v as int) && v <= limit,
            None => within(digits(chars@.skip(from as int)), 0, limit as int) is None,
        },
{
    let ghost text = chars@.skip(from as int);
    if from == chars.len() {
        return None;
    }
    let mut value: u64 = 0;
    let mut i: usize = from;
    while i < chars.len()
        invariant
            from <= i <= chars@.len(),
            text == chars@.skip(from as int),
            value <= limit,
            forall|j: int| from <= j < i ==> is_digit(#[trigger] chars@[j]),
            value == digits_value(text.take(i - from)),
        decreases chars@.len() - i,
    {
        let c = chars[i];
        let code: u32 = code_of(c);
        proof {
            assert(text[i - from] == c);
            assert(text.take(i + 1 - from).drop_last() == text.take(i - from));
        }
        if code < 48 || code > 57 {
            return None;
        }
        let next: u128 = (value as u128) * 10 + ((code - 48) as u128);
        if next > limit as u128 {
            proof {
                if all_digits(text) {
                    digits_value_grows(text, i + 1 - from);
                }
            }
            return None;
        }
        value = next as u64;
        i = i + 1;
    }
    proof {
        assert(text.take(text.len() as int) == text);
        assert forall|j: int| 0 <= j < text.len() implies is_digit(#[trigger] text[j]) by {
            assert(text[j] == chars@[from + j]);
        }
    }
    Some(value)
}

/// Reads an unsigned numeral, if the number fits in a `usize`.
pub fn parse_usize(s: &str) -> (r: Option<usize>)
    ensures
        match r {
            Some(v) => unsigned_numeral(s@) == Some(v as int),
            None => within(unsigned_numeral(s@), 0, usize::MAX as int) is None,
        },
{
    let chars = chars_of(s);
    let from: usize = if chars.len() > 0 && chars[0] == '+' { 1 } else { 0 };
    proof {
        assert(chars@.skip(0) == chars@);
    }
    match read_digits(&chars, from, usize::MAX as u64) {
        Some(v) => Some(v as usize),
        None => None,
    }
}

/// Reads a signed numeral, if the number fits in an `i64`.
pub fn parse_i64(s: &str) -> (r: Option<i64>)
    ensures
        match r {
            Some(v) => signed_numeral(s@) == Some(v as int),
            None => within(signed_numeral(s@), i64::MIN as int, i64::MAX as int) is None,
        },
{
    let chars = chars_of(s);
    proof {
        assert(chars@.skip(0) == chars@);
    }
    if chars.len() > 0 && chars[0] == '-' {
        match read_digits(&chars, 1, 0x8000_0000_0000_0000) {
            Some(v) => {
                let negative: i128 = -(v as i128);
                Some(negative as i64)
            },
            None => None,
        }
    } else {
        let from: usize = if chars.len() > 0 && chars[0] == '+' { 1 } else { 0 };
        match read_digits(&chars, from, 0x7fff_ffff_ffff_ffff) {
            Some(v) => Some(v as i64),
            None => None,
        }
    }
}

/// Reads a signed numeral, if the number fits in an `i32`.
pub fn parse_i32(s: &str) -> (r: Option<i32>)
    ensures
        match r {
            Some(v) => signed_numeral(s@) == Some(v as int),
            None => within(signed_numeral(s@), i32::MIN as int, i32::MAX as int) is None,
        },
{
    match parse_i64(s) {
        Some(v) => if i32::MIN as i64 <= v && v <= i32::MAX as i64 {
            Some(v as i32)
        } else {
            None
        },
        None => None,
    }
}

/// Whether a character is white space.
pub open spec fn is_space(c: char) -> bool {
    let n = c as int;
    ||| 0x09 <= n <= 0x0d
    ||| n == 0x20
    ||| n == 0x85
    ||| n == 0xa0
    ||| n == 0x1680
    ||| 0x2000 <= n <= 0x200a
    ||| n == 0x2028
    ||| n == 0x2029
    ||| n == 0x202f
    ||| n == 0x205f
    ||| n == 0x3000
}

/// Whether a character is white space.
pub fn is_white_space(c: char) -> (r: bool)
    ensures
        r == is_space(c),
{
    let n: u32 = c as u32;
    (0x09 <= n && n <= 0x0d) || n == 0x20 || n == 0x85 || n == 0xa0 || n == 0x1680 || (0x2000 <= n
        && n <= 0x200a) || n == 0x2028 || n == 0x2029 || n == 0x202f || n == 0x205f || n == 0x3000
}

/// A text without the white space at its start.
pub open spec fn trim_start(s: Seq<char>) -> Seq<char>
    decreases s.len(),
{
    if s.len() > 0 && is_space(s[0]) {
        trim_start(s.skip(1))
    } else {
        s
    }
}

/// A text without the white space at its end.
pub open spec fn trim_end(s: Seq<char>) -> Seq<char>
    decreases s.len(),
{
    if s.len() > 0 && is_space(s.last()) {
        trim_end(s.drop_last())
    } else {
        s
    }
}

/// A text without the white space at its start and end.
pub open spec fn trimmed(s: Seq<char>) -> Seq<char> {
    trim_end(trim_start(s))
}

/// The start of the part `from..to` without the white space at its start.
pub fn skip_space(chars: &[char], from: usize, to: usize) -> (r: usize)
    requires
        from <= to <= chars@.len(),
    ensures
        from <= r <= to,
        chars@.subrange(r as int, to as int) == trim_start(
            chars@.subrange(from as int, to as int),
        ),
        r < to ==> !is_space(chars@[r as int]),
{
    let mut i: usize = from;
    while i < to && is_white_space(chars[i])
        invariant
            from <= i <= to <= chars@.len(),
            trim_start(chars@.subrange(i as int, to as int)) == trim_start(
                chars@.subrange(from as int, to as int),
            ),
        decreases to - i,
    {
        proof {
            assert(chars@.subrange(i as int, to as int).skip(1) == chars@.subrange(
                i + 1,
                to as int,
            ));
        }
        i = i + 1;
    }
    i
}

/// The part of `from..to` without the white space at its start and end.
pub fn trim_part(chars: &[char], from: usize, to: usize) -> (r: (usize, usize))
    requires
        from <= to <= chars@.len(),
    ensures
        from <= r.0 <= r.1 <= to,
        chars@.subrange(r.0 as int, r.1 as int) == trimmed(
            chars@.subrange(from as int, to as int),
        ),
{
    let start = skip_space(chars, from, to);
    let mut end: usize = to;
    while end > start && is_white_space(chars[end - 1])
        invariant
            start <= end <= to <= chars@.len(),
            trim_end(chars@.subrange(start as int, end as int)) == trim_end(
                chars@.subrange(start as int, to as int),
            ),
        decreases end - start,
    {
        proof {
            assert(chars@.subrange(start as int, end as int).drop_last() == chars@.subrange(
                start as int,
                end - 1,
            ));
        }
        end = end - 1;
    }
    (start, end)
}

/// The pieces of a text between the occurrences of a separator.
pub open spec fn pieces(s: Seq<char>, separator: char) -> Seq<Seq<char>>
    decreases s.len(),
{
    if s.len() == 0 {
        seq![Seq::empty()]
    } else {
        let front = pieces(s.drop_last(), separator);
        if s.last() == separator {
            front.push(Seq::empty())
        } else {
            front.drop_last().push(front.last().push(s.last()))
        }
    }
}

/// Every text has a piece.
proof fn pieces_are_some(s: Seq<char>, separator: char)
    ensures
        pieces(s, separator).len() > 0,
    decreases s.len(),
{
    if s.len() > 0 {
        pieces_are_some(s.drop_last(), separator);
    }
}

/// A text without the separator is one piece.
pub proof fn unseparated_text_is_one_piece(s: Seq<char>, separator: char)
    requires
        !s.contains(separator),
    ensures
        pieces(s, separator) == seq![s],
    decreases s.len(),
{
    if s.len() > 0 {
        let front = s.drop_last();
        assert forall|i: int| 0 <= i < front.len() implies front[i] != separator by {
            assert(s[i] != separator);
        }
        assert(s[s.len() - 1] != separator);
        unseparated_text_is_one_piece(front, separator);
        assert(seq![front].drop_last().push(front.push(s.last())) =~= seq![s]) by {
            assert(front.push(s.last()) =~= s);
        }
    } else {
        assert(s =~= Seq::<char>::empty());
    }
}

/// The pieces of two texts with a separator between them are the pieces of the one and then the
/// pieces of the other.
pub proof fn pieces_of_joined_texts(a: Seq<char>, b: Seq<char>, separator: char)
    ensures
        pieces(a.push(separator) + b, separator) == pieces(a, separator) + pieces(b, separator),
    decreases b.len(),
{
    let whole = a.push(separator) + b;
    if b.len() == 0 {
        assert(whole =~= a.push(separator));
        assert(whole.drop_last() =~= a);
        assert(pieces(a, separator).push(Seq::<char>::empty()) =~= pieces(a, separator) + pieces(
            b,
            separator,
        ));
    } else {
        let front = b.drop_last();
        pieces_of_joined_texts(a, front, separator);
        pieces_are_some(front, separator);
        assert(whole.drop_last() =~= a.push(separator) + front);
        assert(whole.last() == b.last());
        let p = pieces(a, separator);
        let q = pieces(front, separator);
        assert((p + q).last() == q.last());
        assert((p + q).drop_last() =~= p + q.drop_last());
        assert(pieces(whole, separator) =~= p + pieces(b, separator));
    }
}

/// One more character either ends a piece or goes on with it.
proof fn pieces_step(
    chars: Seq<char>,
    separator: char,
    done: Seq<Seq<char>>,
    start: int,
    i: int,
)
    requires
        0 <= start <= i < chars.len(),
        pieces(chars.take(i), separator) == done.push(chars.subrange(start, i)),
    ensures
        chars[i] == separator ==> pieces(chars.take(i + 1), separator) == done.push(
            chars.subrange(start, i),
        ).push(chars.subrange(i + 1, i + 1)),
        chars[i] != separator ==> pieces(chars.take(i + 1), separator) == done.push(
            chars.subrange(start, i + 1),
        ),
{
    let next = chars.take(i + 1);
    assert(next.drop_last() == chars.take(i));
    assert(next.last() == chars[i]);
    let front = done.push(chars.subrange(start, i));
    assert(front.drop_last() == done);
    assert(front.last().push(chars[i]) == chars.subrange(start, i + 1));
    assert(chars.subrange(i + 1, i + 1) == Seq::<char>::empty());
}

/// The parts of a text between the occurrences of a separator, as pairs of start and end.
pub fn split_parts(chars: &[char], separator: char) -> (r: Vec<(usize, usize)>)
    ensures
        r@.len() == pieces(chars@, separator).len(),
        forall|i: int|
            0 <= i < r@.len() ==> (#[trigger] r@[i]).0 <= r@[i].1 <= chars@.len()
                && chars@.subrange(r@[i].0 as int, r@[i].1 as int) == pieces(
                chars@,
                separator,
            )[i],
{
    let mut out: Vec<(usize, usize)> = Vec::new();
    let ghost mut done: Seq<Seq<char>> = Seq::empty();
    let mut start: usize = 0;
    let mut i: usize = 0;
    proof {
        assert(pieces(chars@.take(0), separator) =~= done.push(chars@.subrange(0, 0))) by {
            assert(chars@.subrange(0, 0) == Seq::<char>::empty());
        }
    }
    while i < chars.len()
        invariant
            start <= i <= chars@.len(),
            out@.len() == done.len(),
            pieces(chars@.take(i as int), separator) == done.push(
                chars@.subrange(start as int, i as int),
            ),
            forall|j: int|
                0 <= j < out@.len() ==> (#[trigger] out@[j]).0 <= out@[j].1 <= chars@.len()
                    && chars@.subrange(out@[j].0 as int, out@[j].1 as int) == done[j],
        decreases chars@.len() - i,
    {
        proof {
            pieces_step(chars@, separator, done, start as int, i as int);
        }
        if chars[i] == separator {
            out.push((start, i));
            proof {
                done = done.push(chars@.subrange(start as int, i as int));
            }
            start = i + 1;
        }
        i = i + 1;
    }
    out.push((start, chars.len()));
    proof {
        assert(chars@.take(chars@.len() as int) == chars@);
    }
    out
}

} // verus!
