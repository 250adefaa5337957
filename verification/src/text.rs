//! Reading the fields of a line of text.
//!
//! A line is cut into fields at every single space. A field is trimmed of
//! white space at both ends before it is read as a keyword or as a decimal
//! number. A number is an optional sign followed by at least one digit
//! `0`-`9`; an unsigned number takes no minus sign.

use vstd::prelude::*;
use vstd::string::*;

verus! {

/// Whether `c` is white space.
pub open spec fn is_space(c: char) -> bool {
    let n = c as u32;
    ||| 0x09 <= n <= 0x0d
    ||| n == 0x20
    ||| n == 0x85
    ||| n == 0xa0
    ||| n == 0x1680
    ||| 0x2000 <= n <= 0x200a
    ||| n == 0x2028
    ||| n == 0x2029
    ||| n == 0x202f
    ||| n == 0x205f
    ||| n == 0x3000
}

/// Whether `c` is one of the digits `0` to `9`.
pub open spec fn is_digit(c: char) -> bool {
    0x30 <= c as u32 <= 0x39
}

/// The value of the digit `c`.
pub open spec fn digit_of(c: char) -> int {
    c as u32 - 0x30
}

/// The fields of `s`: the pieces between the occurrences of `sep`. There is
/// always one field more than there are separators.
pub open spec fn split(s: Seq<char>, sep: char) -> Seq<Seq<char>>
    decreases s.len(),
{
    if s.len() == 0 {
        seq![Seq::empty()]
    } else {
        let before = split(s.drop_last(), sep);
        if s.last() == sep {
            before.push(Seq::empty())
        } else {
            before.update(before.len() - 1, before.last().push(s.last()))
        }
    }
}

/// `s` without the white space at its start.
pub open spec fn trim_start(s: Seq<char>) -> Seq<char>
    decreases s.len(),
{
    if s.len() > 0 && is_space(s[0]) {
        trim_start(s.drop_first())
    } else {
        s
    }
}

/// `s` without the white space at its end.
pub open spec fn trim_end(s: Seq<char>) -> Seq<char>
    decreases s.len(),
{
    if s.len() > 0 && is_space(s.last()) {
        trim_end(s.drop_last())
    } else {
        s
    }
}

/// `s` without the white space at its start and at its end.
pub open spec fn trimmed(s: Seq<char>) -> Seq<char> {
    trim_end(trim_start(s))
}

/// Whether `s` holds digits only.
pub open spec fn all_digits(s: Seq<char>) -> bool {
    forall|i: int| 0 <= i < s.len() ==> is_digit(#[trigger] s[i])
}

/// The number that the digits `s` write in base ten.
pub open spec fn decimal_value(s: Seq<char>) -> int
    decreases s.len(),
{
    if s.len() == 0 {
        0
    } else {
        decimal_value(s.drop_last()) * 10 + digit_of(s.last())
    }
}

/// The number that `s` writes: an optional `+` or `-` and at least one
/// digit. `None` where `s` is not of that form.
pub open spec fn signed_number(s: Seq<char>) -> Option<int> {
    let signed = s.len() > 0 && (s[0] == '-' || s[0] == '+');
    let digits = if signed { s.drop_first() } else { s };
    if digits.len() > 0 && all_digits(digits) {
        Some(if signed && s[0] == '-' { -decimal_value(digits) } else { decimal_value(digits) })
    } else {
        None
    }
}

/// The number that `s` writes: an optional `+` and at least one digit.
/// `None` where `s` is not of that form.
pub open spec fn unsigned_number(s: Seq<char>) -> Option<int> {
    let signed = s.len() > 0 && s[0] == '+';
    let digits = if signed { s.drop_first() } else { s };
    if digits.len() > 0 && all_digits(digits) {
        Some(decimal_value(digits))
    } else {
        None
    }
}

/// The signed number that `s` writes, where it fits 32 bits.
pub open spec fn i32_of(s: Seq<char>) -> Option<i32> {
    match signed_number(s) {
        Some(n) => if i32::MIN <= n <= i32::MAX { Some(n as i32) } else { None },
        None => None,
    }
}

/// The unsigned number that `s` writes, where it fits 32 bits.
pub open spec fn u32_of(s: Seq<char>) -> Option<u32> {
    match unsigned_number(s) {
        Some(n) => if n <= u32::MAX { Some(n as u32) } else { None },
        None => None,
    }
}

/// The pieces of `s` within the given bounds.
pub open spec fn pieces(s: Seq<char>, bounds: Seq<(usize, usize)>) -> Seq<Seq<char>> {
    Seq::new(bounds.len(), |k: int| s.subrange(bounds[k].0 as int, bounds[k].1 as int))
}

/// Whether each pair of `bounds` delimits a piece of a text of length `len`.
pub open spec fn within(bounds: Seq<(usize, usize)>, len: int) -> bool {
    forall|k: int| 0 <= k < bounds.len() ==> (#[trigger] bounds[k]).0 <= bounds[k].1 <= len
}

/// The characters of `line`, in order.
pub fn chars_of(line: &str) -> (chars: Vec<char>)
    ensures
        chars@ == line@,
{
    let mut chars: Vec<char> = Vec::new();
    for c in it: line.chars()
        invariant
            it.seq() == line@,
            chars@ == it.seq().take(it.index() as int),
    {
        chars.push(c);
    }
    chars
}

/// Whether `c` is white space.
pub fn is_space_char(c: char) -> (b: bool)
    ensures
        b == is_space(c),
{
    let n: u32 = c as u32;
    (0x09 <= n && n <= 0x0d) || n == 0x20 || n == 0x85 || n == 0xa0 || n == 0x1680 || (0x2000 <= n
        && n <= 0x200a) || n == 0x2028 || n == 0x2029 || n == 0x202f || n == 0x205f || n == 0x3000
}

/// Where the fields of `chars` start and end, cut at every space.
pub fn split_fields(chars: &Vec<char>) -> (bounds: Vec<(usize, usize)>)
    ensures
        within(bounds@, chars@.len() as int),
        pieces(chars@, bounds@) == split(chars@, ' '),
{
    let mut bounds: Vec<(usize, usize)> = Vec::new();
    let mut start: usize = 0;
    proof {
        assert(chars@.take(0).len() == 0);
        assert(pieces(chars@, bounds@).push(chars@.subrange(0, 0)) =~~= seq![Seq::<char>::empty()]);
    }
    for i in 0..chars.len()
        invariant
            start <= i,
            within(bounds@, i as int),
            split(chars@.take(i as int), ' ') == pieces(chars@, bounds@).push(
                chars@.subrange(start as int, i as int),
            ),
    {
        proof {
            let upto = chars@.take(i + 1);
            assert(upto.drop_last() =~= chars@.take(i as int));
            assert(upto.last() == chars@[i as int]);
            let before = split(chars@.take(i as int), ' ');
            let found = pieces(chars@, bounds@);
            let piece = chars@.subrange(start as int, i as int);
            assert(before.len() == found.len() + 1);
            assert(before.last() == piece);
            if chars@[i as int] == ' ' {
                assert(pieces(chars@, bounds@.push((start, i))) =~~= before);
                assert(chars@.subrange(i + 1, i + 1) =~= Seq::<char>::empty());
            } else {
                assert(piece.push(chars@[i as int]) =~= chars@.subrange(start as int, i + 1));
                assert(before.update(before.len() - 1, piece.push(chars@[i as int])) =~~= found.push(
                    chars@.subrange(start as int, i + 1),
                ));
            }
        }
        if chars[i] == ' ' {
            bounds.push((start, i));
            start = i + 1;
        }
    }
    proof {
        assert(chars@.take(chars@.len() as int) =~= chars@);
        assert(pieces(chars@, bounds@.push((start, chars.len()))) =~~= pieces(chars@, bounds@).push(
            chars@.subrange(start as int, chars@.len() as int),
        ));
    }
    bounds.push((start, chars.len()));
    bounds
}

/// The bounds of the piece `from..to` of `chars` with the white space at its
/// ends left out.
pub fn trim_bounds(chars: &Vec<char>, from: usize, to: usize) -> (r: (usize, usize))
    requires
        from <= to <= chars@.len(),
    ensures
        from <= r.0 <= r.1 <= to,
        chars@.subrange(r.0 as int, r.1 as int) == trimmed(
            chars@.subrange(from as int, to as int),
        ),
{
    let mut a: usize = from;
    while a < to && is_space_char(chars[a])
        invariant
            from <= a <= to <= chars@.len(),
            trim_start(chars@.subrange(from as int, to as int)) == trim_start(
                chars@.subrange(a as int, to as int),
            ),
        decreases to - a,
    {
        proof {
            let rest = chars@.subrange(a as int, to as int);
            assert(rest.drop_first() =~= chars@.subrange(a + 1, to as int));
        }
        a = a + 1;
    }
    let mut b: usize = to;
    while b > a && is_space_char(chars[b - 1])
        invariant
            a <= b <= to <= chars@.len(),
            trim_end(chars@.subrange(a as int, to as int)) == trim_end(
                chars@.subrange(a as int, b as int),
            ),
        decreases b - a,
    {
        proof {
            let rest = chars@.subrange(a as int, b as int);
            assert(rest.drop_last() =~= chars@.subrange(a as int, b - 1));
        }
        b = b - 1;
    }
    (a, b)
}

/// Whether the piece `from..to` of `chars` reads `word`.
pub fn is_word(chars: &Vec<char>, from: usize, to: usize, word: &str) -> (b: bool)
    requires
        from <= to <= chars@.len(),
    ensures
        b == (chars@.subrange(from as int, to as int) == word@),
{
    let letters = chars_of(word);
    if letters.len() != to - from {
        return false;
    }
    for i in 0..letters.len()
        invariant
            from <= to <= chars@.len(),
            letters@ == word@,
            letters@.len() == to - from,
            chars@.subrange(from as int, from + i) == letters@.take(i as int),
    {
        if chars[from + i] != letters[i] {
            assert(chars@.subrange(from as int, to as int)[i as int] != word@[i as int]);
            return false;
        }
        assert(chars@.subrange(from as int, from + i + 1) =~= chars@.subrange(
            from as int,
            from + i,
        ).push(chars@[from + i]));
        assert(letters@.take(i + 1) =~= letters@.take(i as int).push(letters@[i as int]));
    }
    assert(letters@.take(letters@.len() as int) =~= letters@);
    true
}

/// A bound that no 32-bit number reaches.
pub const BEYOND: u64 = 0x1_0000_0000;

/// The smaller of a number and [`BEYOND`].
pub open spec fn capped(n: int) -> int {
    if n < BEYOND {
        n
    } else {
        BEYOND as int
    }
}

/// The number that the digits in `from..to` write, capped at [`BEYOND`], or
/// `None` where a character there is no digit.
fn read_digits(chars: &Vec<char>, from: usize, to: usize) -> (r: Option<u64>)
    requires
        from <= to <= chars@.len(),
    ensures
        r is Some <==> all_digits(chars@.subrange(from as int, to as int)),
        r matches Some(n) ==> n == capped(decimal_value(chars@.subrange(from as int, to as int))),
{
    let mut value: u64 = 0;
    for i in from..to
        invariant
            from <= to <= chars@.len(),
            all_digits(chars@.subrange(from as int, i as int)),
            value == capped(decimal_value(chars@.subrange(from as int, i as int))),
            decimal_value(chars@.subrange(from as int, i as int)) >= 0,
    {
        let n: u32 = chars[i] as u32;
        proof {
            let upto = chars@.subrange(from as int, i + 1);
            assert(upto.drop_last() =~= chars@.subrange(from as int, i as int));
            assert(upto.last() == chars@[i as int]);
        }
        if n < 0x30 || n > 0x39 {
            proof {
                let all = chars@.subrange(from as int, to as int);
                assert(all[i - from] == chars@[i as int]);
            }
            return None;
        }
        let next: u64 = value * 10 + (n - 0x30) as u64;
        value = if next < BEYOND { next } else { BEYOND };
    }
    Some(value)
}

/// The signed 32-bit number written in `from..to`, if there is one.
pub fn read_i32(chars: &Vec<char>, from: usize, to: usize) -> (r: Option<i32>)
    requires
        from <= to <= chars@.len(),
    ensures
        r == i32_of(chars@.subrange(from as int, to as int)),
{
    let ghost s = chars@.subrange(from as int, to as int);
    let signed = from < to && (chars[from] == '-' || chars[from] == '+');
    let negative = signed && chars[from] == '-';
    let first = if signed { from + 1 } else { from };
    proof {
        assert(from < to ==> s[0] == chars@[from as int]);
        if signed {
            assert(s.drop_first() =~= chars@.subrange(first as int, to as int));
        }
    }
    if first == to {
        return None;
    }
    match read_digits(chars, first, to) {
        Some(n) => {
            if negative {
                if n <= 0x8000_0000 {
                    Some((-(n as i64)) as i32)
                } else {
                    None
                }
            } else {
                if n <= 0x7fff_ffff {
                    Some(n as i32)
                } else {
                    None
                }
            }
        },
        None => None,
    }
}

/// The unsigned 32-bit number written in `from..to`, if there is one.
pub fn read_u32(chars: &Vec<char>, from: usize, to: usize) -> (r: Option<u32>)
    requires
        from <= to <= chars@.len(),
    ensures
        r == u32_of(chars@.subrange(from as int, to as int)),
{
    let ghost s = chars@.subrange(from as int, to as int);
    let signed = from < to && chars[from] == '+';
    let first = if signed { from + 1 } else { from };
    proof {
        assert(from < to ==> s[0] == chars@[from as int]);
        if signed {
            assert(s.drop_first() =~= chars@.subrange(first as int, to as int));
        }
    }
    if first == to {
        return None;
    }
    match read_digits(chars, first, to) {
        Some(n) => {
            if n <= 0xffff_ffff {
                Some(n as u32)
            } else {
                None
            }
        },
        None => None,
    }
}

/// The character that writes the digit `d`.
pub open spec fn digit_char(d: int) -> char {
    (d + 0x30) as char
}

/// The digits that write `n` in base ten, without leading zeros.
pub open spec fn digits_of(n: nat) -> Seq<char>
    decreases n,
{
    if n < 10 {
        seq![digit_char(n as int)]
    } else {
        digits_of(n / 10).push(digit_char(n as int % 10))
    }
}

/// The text that writes `n` in base ten, with a minus sign where `n` is
/// negative.
pub open spec fn numeral(n: int) -> Seq<char> {
    if n < 0 {
        seq!['-'] + digits_of((-n) as nat)
    } else {
        digits_of(n as nat)
    }
}

/// The text of one digit.
fn digit_text(d: u32) -> (text: &'static str)
    requires
        d < 10,
    ensures
        text@ == seq![digit_char(d as int)],
{
    proof {
        reveal_strlit("0");
        reveal_strlit("1");
        reveal_strlit("2");
        reveal_strlit("3");
        reveal_strlit("4");
        reveal_strlit("5");
        reveal_strlit("6");
        reveal_strlit("7");
        reveal_strlit("8");
        reveal_strlit("9");
    }
    let text = if d == 0 {
        "0"
    } else if d == 1 {
        "1"
    } else if d == 2 {
        "2"
    } else if d == 3 {
        "3"
    } else if d == 4 {
        "4"
    } else if d == 5 {
        "5"
    } else if d == 6 {
        "6"
    } else if d == 7 {
        "7"
    } else if d == 8 {
        "8"
    } else {
        "9"
    };
    assert(text@ =~= seq![digit_char(d as int)]);
    text
}

/// Appends the digits of `n` to `text`.
fn write_digits(text: &mut String, n: u32)
    ensures
        final(text)@ == old(text)@ + digits_of(n as nat),
    decreases n,
{
    if n >= 10 {
        write_digits(text, n / 10);
    }
    text.append(digit_text(n % 10));
    assert(final(text)@ =~= old(text)@ + digits_of(n as nat));
}

/// Appends the numeral of `n` to `text`.
pub fn write_number(text: &mut String, n: i32)
    ensures
        final(text)@ == old(text)@ + numeral(n as int),
{
    if n < 0 {
        proof {
            reveal_strlit("-");
        }
        text.append("-");
        write_digits(text, (-(n as i64)) as u32);
        assert(final(text)@ =~= old(text)@ + numeral(n as int));
    } else {
        write_digits(text, n as u32);
    }
}

/// The digits that write a number are digits, at least one, and write that
/// number.
pub proof fn lemma_digits_read_back(n: nat)
    ensures
        digits_of(n).len() > 0,
        all_digits(digits_of(n)),
        decimal_value(digits_of(n)) == n,
    decreases n,
{
    let text = digits_of(n);
    if n < 10 {
        assert(text.drop_last() =~= Seq::<char>::empty());
        assert(decimal_value(text.drop_last()) == 0);
    } else {
        lemma_digits_read_back(n / 10);
        assert(text.drop_last() =~= digits_of(n / 10));
    }
}

/// What is written as a numeral is read back as the same number.
pub proof fn lemma_numeral_reads_back(n: int)
    ensures
        signed_number(numeral(n)) == Some(n),
        n >= 0 ==> unsigned_number(numeral(n)) == Some(n),
{
    if n < 0 {
        lemma_digits_read_back((-n) as nat);
        assert(numeral(n).drop_first() =~= digits_of((-n) as nat));
    } else {
        lemma_digits_read_back(n as nat);
        assert(is_digit(numeral(n)[0]));
    }
}

} // verus!
