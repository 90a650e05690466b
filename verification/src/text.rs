//! Text as a run of characters, and numbers in it.

use vstd::prelude::*;

verus! {

/// The characters of a text.
pub fn chars_of(text: &str) -> (r: Vec<char>)
    ensures
        r@ == text@,
{
    let mut out: Vec<char> = Vec::new();
    for c in it: text.chars()
        invariant
            it.seq() == text@,
            out@ == it.seq().take(it.index() as int),
    {
        out.push(c);
    }
    out
}

/// Whether two runs of characters are the same.
pub fn same_chars(a: &[char], b: &[char]) -> (r: bool)
    ensures
        r == (a@ == b@),
{
    if a.len() != b.len() {
        return false;
    }
    let mut i: usize = 0;
    while i < a.len()
        invariant
            i <= a@.len(),
            a@.len() == b@.len(),
            forall|j: int| 0 <= j < i ==> a@[j] == b@[j],
        decreases a@.len() - i,
    {
        if a[i] != b[i] {
            return false;
        }
        i = i + 1;
    }
    assert(a@ =~= b@);
    true
}

/// Whether a run of characters spells a text.
pub fn spells(chars: &[char], text: &str) -> (r: bool)
    ensures
        r == (chars@ == text@),
{
    let expected: Vec<char> = chars_of(text);
    same_chars(chars, expected.as_slice())
}

/// Whether two texts are the same.
pub fn same_text(a: &str, b: &str) -> (r: bool)
    ensures
        r == (a@ == b@),
{
    let left: Vec<char> = chars_of(a);
    spells(left.as_slice(), b)
}

/// Where `c` first is in a text from `i` on, or its end.
pub open spec fn next_of(text: Seq<char>, c: char, i: int) -> int
    decreases text.len() - i,
{
    if i >= text.len() || text[i] == c {
        i
    } else {
        next_of(text, c, i + 1)
    }
}

/// What comes before the first `c`, or all of it.
pub open spec fn before(text: Seq<char>, c: char) -> Seq<char> {
    text.take(next_of(text, c, 0))
}

/// What comes after the first `c`, or nothing.
pub open spec fn after(text: Seq<char>, c: char) -> Seq<char> {
    if next_of(text, c, 0) < text.len() {
        text.skip(next_of(text, c, 0) + 1)
    } else {
        Seq::empty()
    }
}

/// The next place of a character is at or after where the search starts, and no
/// further than the end.
pub proof fn next_of_is_in_range(text: Seq<char>, c: char, i: int)
    requires
        0 <= i <= text.len(),
    ensures
        i <= next_of(text, c, i) <= text.len(),
    decreases text.len() - i,
{
    if i < text.len() && text[i] != c {
        next_of_is_in_range(text, c, i + 1);
    }
}

proof fn next_of_skips(text: Seq<char>, c: char, i: int, j: int)
    requires
        0 <= i <= j <= text.len(),
        forall|k: int| i <= k < j ==> text[k] != c,
    ensures
        next_of(text, c, i) == next_of(text, c, j),
    decreases j - i,
{
    if i < j {
        next_of_skips(text, c, i + 1, j);
    }
}

/// Where `c` first is in a text, or its end.
pub fn find_char(text: &[char], c: char) -> (r: usize)
    ensures
        r == next_of(text@, c, 0),
        r <= text@.len(),
{
    let mut i: usize = 0;
    while i < text.len()
        invariant
            i <= text@.len(),
            forall|k: int| 0 <= k < i ==> text@[k] != c,
        decreases text@.len() - i,
    {
        if text[i] == c {
            proof {
                next_of_skips(text@, c, 0, i as int);
            }
            return i;
        }
        i = i + 1;
    }
    proof {
        next_of_skips(text@, c, 0, i as int);
    }
    i
}

/// Whether a text starts with another.
pub open spec fn starts_with(text: Seq<char>, start: Seq<char>) -> bool {
    text.len() >= start.len() && text.take(start.len() as int) == start
}

pub fn has_prefix(text: &[char], start: &[char]) -> (r: bool)
    ensures
        r == starts_with(text@, start@),
{
    if text.len() < start.len() {
        return false;
    }
    same_chars(vstd::slice::slice_subrange(text, 0, start.len()), start)
}

/// Whether a text ends with another.
pub open spec fn ends_with(text: Seq<char>, end: Seq<char>) -> bool {
    text.len() >= end.len() && text.skip(text.len() - end.len()) == end
}

pub fn has_suffix(text: &[char], end: &[char]) -> (r: bool)
    ensures
        r == ends_with(text@, end@),
{
    if text.len() < end.len() {
        return false;
    }
    let from: usize = text.len() - end.len();
    let tail: &[char] = vstd::slice::slice_subrange(text, from, text.len());
    assert(tail@ =~= text@.skip(from as int));
    same_chars(tail, end)
}

/// A decimal digit.
pub open spec fn is_digit(c: char) -> bool {
    '0' <= c <= '9'
}

pub open spec fn digit_value(c: char) -> nat {
    (c as int - 48) as nat
}

/// The number that a run of digits says.
pub open spec fn number(digits: Seq<char>) -> nat
    decreases digits.len(),
{
    if digits.len() == 0 {
        0
    } else {
        number(digits.drop_last()) * 10 + digit_value(digits.last())
    }
}

/// One digit or more, and nothing else.
pub open spec fn is_number(digits: Seq<char>) -> bool {
    digits.len() > 0 && forall|i: int| 0 <= i < digits.len() ==> is_digit(#[trigger] digits[i])
}

/// A text without the plus sign it may start with.
pub open spec fn unsigned_part(text: Seq<char>) -> Seq<char> {
    if text.len() > 0 && text[0] == '+' {
        text.skip(1)
    } else {
        text
    }
}

/// The number that a text says, if it says one of sixty-four bits.
pub open spec fn parsed(text: Seq<char>) -> Option<u64> {
    let digits = unsigned_part(text);
    if is_number(digits) && number(digits) <= u64::MAX {
        Some(number(digits) as u64)
    } else {
        None
    }
}

proof fn more_digits_are_no_less(digits: Seq<char>, i: int)
    requires
        0 <= i <= digits.len(),
    ensures
        number(digits.take(i)) <= number(digits),
    decreases digits.len() - i,
{
    if i < digits.len() {
        more_digits_are_no_less(digits, i + 1);
        assert(digits.take(i + 1).drop_last() =~= digits.take(i));
    } else {
        assert(digits.take(i) =~= digits);
    }
}

/// The number that a text says, with or without a plus sign; nothing if it says
/// none, or one that does not fit.
pub fn parse_u64(text: &[char]) -> (r: Option<u64>)
    ensures
        r == parsed(text@),
{
    let from: usize = if text.len() > 0 && text[0] == '+' {
        1
    } else {
        0
    };
    let digits: &[char] = vstd::slice::slice_subrange(text, from, text.len());
    assert(digits@ =~= unsigned_part(text@));
    if digits.len() == 0 {
        return None;
    }
    let mut n: u64 = 0;
    let mut i: usize = 0;
    while i < digits.len()
        invariant
            i <= digits@.len(),
            digits@ == unsigned_part(text@),
            digits@.len() > 0,
            n == number(digits@.take(i as int)),
            forall|k: int| 0 <= k < i ==> is_digit(#[trigger] digits@[k]),
        decreases digits@.len() - i,
    {
        let c: char = digits[i];
        if c < '0' || c > '9' {
            assert(!is_digit(digits@[i as int]));
            return None;
        }
        let d: u64 = (c as u32 - 48) as u64;
        assert(digits@.take(i + 1).drop_last() =~= digits@.take(i as int));
        if n > (u64::MAX - d) / 10 {
            proof {
                assert(number(digits@.take(i + 1)) > u64::MAX);
                more_digits_are_no_less(digits@, i + 1);
            }
            return None;
        }
        n = n * 10 + d;
        i = i + 1;
    }
    assert(digits@.take(i as int) =~= digits@);
    Some(n)
}

/// A digit as a character.
pub open spec fn digit(d: nat) -> char {
    (48 + d) as char
}

/// A number in decimal.
pub open spec fn decimal(n: nat) -> Seq<char>
    decreases n,
{
    if n < 10 {
        seq![digit(n)]
    } else {
        decimal(n / 10).push(digit(n % 10))
    }
}

/// What is written in decimal is digits, and reads as the same number.
pub proof fn decimal_reads_back(n: u64)
    ensures
        is_number(decimal(n as nat)),
        parsed(decimal(n as nat)) == Some(n),
{
    decimal_is_its_number(n as nat);
    assert(is_digit(decimal(n as nat)[0]));
}

proof fn decimal_is_its_number(n: nat)
    ensures
        is_number(decimal(n)),
        number(decimal(n)) == n,
    decreases n,
{
    if n < 10 {
        assert(decimal(n).drop_last() =~= Seq::<char>::empty());
        assert(number(decimal(n).drop_last()) == 0);
        assert(decimal(n).last() == digit(n));
    } else {
        decimal_is_its_number(n / 10);
        assert(decimal(n).drop_last() =~= decimal(n / 10));
    }
}

fn digit_text(d: u64) -> (r: &'static str)
    requires
        d < 10,
    ensures
        r@ == seq![digit(d as nat)],
{
    proof {
        reveal_strlit("0");
        reveal_strlit("1");
        reveal_strlit("2");
        reveal_strlit("3");
        reveal_strlit("4");
        reveal_strlit("5");
        reveal_strlit("6");
        reveal_strlit("7");
        reveal_strlit("8");
        reveal_strlit("9");
    }
    let r: &'static str = if d == 0 {
        "0"
    } else if d == 1 {
        "1"
    } else if d == 2 {
        "2"
    } else if d == 3 {
        "3"
    } else if d == 4 {
        "4"
    } else if d == 5 {
        "5"
    } else if d == 6 {
        "6"
    } else if d == 7 {
        "7"
    } else if d == 8 {
        "8"
    } else {
        "9"
    };
    assert(r@ =~= seq![digit(d as nat)]);
    r
}

/// Append a number in decimal.
pub fn append_decimal(out: &mut String, n: u64)
    ensures
        final(out)@ == old(out)@ + decimal(n as nat),
    decreases n,
{
    if n >= 10 {
        append_decimal(out, n / 10);
    }
    out.append(digit_text(n % 10));
    assert(out@ =~= old(out)@ + decimal(n as nat));
}

/// White space, as Unicode has it.
pub open spec fn is_space(c: char) -> bool {
    let x = c as u32;
    ||| 0x09 <= x <= 0x0D
    ||| x == 0x20
    ||| x == 0x85
    ||| x == 0xA0
    ||| x == 0x1680
    ||| 0x2000 <= x <= 0x200A
    ||| x == 0x2028
    ||| x == 0x2029
    ||| x == 0x202F
    ||| x == 0x205F
    ||| x == 0x3000
}

pub fn space(c: char) -> (r: bool)
    ensures
        r == is_space(c),
{
    let x: u32 = c as u32;
    (0x09 <= x && x <= 0x0D) || x == 0x20 || x == 0x85 || x == 0xA0 || x == 0x1680 || (0x2000 <= x
        && x <= 0x200A) || x == 0x2028 || x == 0x2029 || x == 0x202F || x == 0x205F || x == 0x3000
}

/// The end of the run that starts at `i` of characters that are white space, or
/// that are not.
pub open spec fn run_end(text: Seq<char>, i: int, spaces: bool) -> int
    decreases text.len() - i,
{
    if i >= text.len() || is_space(text[i]) != spaces {
        i
    } else {
        run_end(text, i + 1, spaces)
    }
}

pub fn find_run_end(text: &[char], from: usize, spaces: bool) -> (r: usize)
    requires
        from <= text@.len(),
    ensures
        r == run_end(text@, from as int, spaces),
        from <= r <= text@.len(),
{
    let mut i: usize = from;
    while i < text.len() && space(text[i]) == spaces
        invariant
            from <= i <= text@.len(),
            run_end(text@, from as int, spaces) == run_end(text@, i as int, spaces),
        decreases text@.len() - i,
    {
        i = i + 1;
    }
    i
}

/// A text is split at the first place where a character is: what is before it does
/// not hold it, and with it and what is after it makes the text. Without one, all of
/// the text is before it.
pub proof fn a_text_is_split_at_the_first(text: Seq<char>, c: char)
    ensures
        !before(text, c).contains(c),
        text.contains(c) ==> text == before(text, c) + seq![c] + after(text, c),
        !text.contains(c) ==> before(text, c) == text && after(text, c).len() == 0,
{
    next_of_is_in_range(text, c, 0);
    next_of_is_the_first(text, c, 0);
    let at = next_of(text, c, 0);
    assert forall|k: int| 0 <= k < before(text, c).len() implies before(text, c)[k] != c by {
        assert(text[k] != c);
    }
    if at < text.len() {
        assert(text[at] == c);
        assert(text =~= before(text, c) + seq![c] + after(text, c));
    } else {
        assert(before(text, c) =~= text);
        if text.contains(c) {
            let k = choose|k: int| 0 <= k < text.len() && text[k] == c;
            assert(text[k] != c);
        }
    }
}

proof fn next_of_is_the_first(text: Seq<char>, c: char, i: int)
    requires
        0 <= i <= text.len(),
    ensures
        forall|k: int| i <= k < next_of(text, c, i) ==> #[trigger] text[k] != c,
        next_of(text, c, i) < text.len() ==> text[next_of(text, c, i)] == c,
    decreases text.len() - i,
{
    if i < text.len() && text[i] != c {
        next_of_is_the_first(text, c, i + 1);
    }
}

/// What is in front of a mark and behind it is found again, as long as the mark is
/// not in front of itself.
pub proof fn a_split_undoes_a_join(front: Seq<char>, c: char, back: Seq<char>)
    requires
        !front.contains(c),
    ensures
        before(front + seq![c] + back, c) == front,
        after(front + seq![c] + back, c) == back,
{
    let whole = front + seq![c] + back;
    assert forall|k: int| 0 <= k < front.len() implies whole[k] != c by {
        assert(front.contains(front[k]));
    }
    next_of_skips(whole, c, 0, front.len() as int);
    assert(whole[front.len() as int] == c);
    assert(before(whole, c) =~= front);
    assert(after(whole, c) =~= back);
}

/// A text starts with another exactly if that and something behind it is the text,
/// and ends with another exactly if something before it is.
pub proof fn a_start_and_an_end_are_parts(text: Seq<char>, part: Seq<char>)
    ensures
        starts_with(text, part) <==> exists|rest: Seq<char>| #[trigger] (part + rest) == text,
        ends_with(text, part) <==> exists|rest: Seq<char>| #[trigger] (rest + part) == text,
{
    if starts_with(text, part) {
        assert(part + text.skip(part.len() as int) =~= text);
    }
    if ends_with(text, part) {
        assert(text.take(text.len() - part.len()) + part =~= text);
    }
    if exists|rest: Seq<char>| #[trigger] (part + rest) == text {
        let rest = choose|rest: Seq<char>| #[trigger] (part + rest) == text;
        assert((part + rest).take(part.len() as int) =~= part);
    }
    if exists|rest: Seq<char>| #[trigger] (rest + part) == text {
        let rest = choose|rest: Seq<char>| #[trigger] (rest + part) == text;
        assert((rest + part).skip(rest.len() as int) =~= part);
    }
}

/// A number is read digit by digit: one more is worth ten times what was there and
/// itself, as long as sixty-four bits hold it. Anything but a digit is no number,
/// and what is none does not become one by going on.
pub proof fn a_number_is_read_digit_by_digit(text: Seq<char>, c: char)
    ensures
        parsed(Seq::empty()) is None,
        parsed(seq!['+']) is None,
        c != '+' ==> parsed(seq![c]) == if '0' <= c <= '9' {
            Some((c as int - 48) as u64)
        } else {
            None
        },
        parsed(text) matches Some(n) ==> parsed(text.push(c)) == if '0' <= c <= '9' && n * 10 + (
        c as int - 48) <= u64::MAX {
            Some((n * 10 + (c as int - 48)) as u64)
        } else {
            None
        },
        parsed(text) is None && text.len() > 0 && text != seq!['+'] ==> parsed(text.push(c)) is None,
        text.len() > 0 && text[0] != '+' ==> parsed(seq!['+'] + text) == parsed(text),
{
    let more = text.push(c);
    assert(unsigned_part(seq!['+']) =~= Seq::<char>::empty());
    assert(seq![c].drop_last() =~= Seq::<char>::empty());
    assert(number(Seq::<char>::empty()) == 0);
    assert(is_number(seq![c]) <==> is_digit(c)) by {
        assert(seq![c][0] == c);
    }
    if text.len() > 0 {
        let digits = unsigned_part(text);
        assert(unsigned_part(more) =~= digits.push(c));
        assert(digits.push(c).drop_last() =~= digits);
        assert(digits.push(c)[digits.len() as int] == c);
        if is_number(digits) && is_digit(c) {
            assert forall|i: int| 0 <= i < digits.push(c).len() implies is_digit(
                #[trigger] digits.push(c)[i],
            ) by {
                if i < digits.len() {
                    assert(is_digit(digits[i]));
                }
            }
        }
        if is_number(digits.push(c)) {
            assert forall|i: int| 0 <= i < digits.len() implies is_digit(#[trigger] digits[i]) by {
                assert(is_digit(digits.push(c)[i]));
            }
        }
        if digits.len() == 0 {
            assert(text =~= seq!['+']);
        }
        if text[0] != '+' {
            assert(unsigned_part(seq!['+'] + text) =~= text);
        }
    } else {
        assert(text =~= Seq::<char>::empty());
    }
}

/// A number is written without a zero in front, unless it is zero.
pub proof fn a_number_is_written_without_a_leading_zero(n: nat)
    ensures
        decimal(n).len() > 0,
        n > 0 ==> decimal(n)[0] != '0',
        n < 10 ==> decimal(n).len() == 1,
        decimal(10 * n + 10).len() == decimal(n + 1).len() + 1,
    decreases n,
{
    if n >= 10 {
        a_number_is_written_without_a_leading_zero(n / 10);
        assert(decimal(n)[0] == decimal(n / 10)[0]);
    }
    assert((10 * n + 10) as nat / 10 == n + 1);
}

/// White space: the blank and the controls that move on, the two of Latin, and those
/// that Unicode adds.
pub proof fn white_space_is_what_separates(c: char)
    ensures
        (c as int) < 0x80 ==> (is_space(c) <==> c == ' ' || 9 <= c as int <= 13),
        0x80 <= c as int <= 0xFF ==> (is_space(c) <==> c as int == 0x85 || c as int == 0xA0),
        (c as int) > 0xFF ==> (is_space(c) <==> seq![
            0x1680int,
            0x2000,
            0x2001,
            0x2002,
            0x2003,
            0x2004,
            0x2005,
            0x2006,
            0x2007,
            0x2008,
            0x2009,
            0x200A,
            0x2028,
            0x2029,
            0x202F,
            0x205F,
            0x3000,
        ].contains(c as int)),
{
    let all = seq![
        0x1680int,
        0x2000,
        0x2001,
        0x2002,
        0x2003,
        0x2004,
        0x2005,
        0x2006,
        0x2007,
        0x2008,
        0x2009,
        0x200A,
        0x2028,
        0x2029,
        0x202F,
        0x205F,
        0x3000,
    ];
    let x = c as int;
    if x > 0xFF && is_space(c) {
        let k: int = if x == 0x1680 {
            0
        } else if x <= 0x200A {
            x - 0x2000 + 1
        } else if x == 0x2028 {
            12
        } else if x == 0x2029 {
            13
        } else if x == 0x202F {
            14
        } else if x == 0x205F {
            15
        } else {
            16
        };
        assert(all[k] == x);
    }
}

/// A run of white space, or of anything else, ends where something else begins, or
/// with the text.
pub proof fn a_run_ends_where_something_else_begins(text: Seq<char>, i: int, spaces: bool)
    requires
        0 <= i <= text.len(),
    ensures
        i <= run_end(text, i, spaces) <= text.len(),
        forall|k: int|
            i <= k < run_end(text, i, spaces) ==> is_space(#[trigger] text[k]) == spaces,
        run_end(text, i, spaces) < text.len() ==> is_space(text[run_end(text, i, spaces)])
            != spaces,
    decreases text.len() - i,
{
    if i < text.len() && is_space(text[i]) == spaces {
        a_run_ends_where_something_else_begins(text, i + 1, spaces);
    }
}

} // verus!
