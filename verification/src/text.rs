//! Strings as sequences of characters: comparing, trimming, reading and
//! writing decimal numbers.

use vstd::prelude::*;
use vstd::string::*;

verus! {

/// `String::push`: the character becomes the last one of the string.
pub assume_specification[ String::push ](s: &mut String, c: char)
    ensures
        final(s)@ == old(s)@.push(c),
;

/// `str`'s `==`: whether the two strings hold the same characters.
pub assume_specification[ <str as PartialEq>::eq ](a: &str, b: &str) -> (r: bool)
    ensures
        r == (a@ == b@),
;

/// Whether two strings hold the same characters.
pub fn same(a: &str, b: &str) -> (r: bool)
    ensures
        r == (a@ == b@),
{
    a.eq(b)
}

/// The characters of a string, one by one.
pub fn chars_of(s: &str) -> (r: Vec<char>)
    ensures
        r@ == s@,
{
    let mut out: Vec<char> = Vec::new();
    for c in it: s.chars()
        invariant
            it.seq() == s@,
            out@ == s@.take(it.index()),
    {
        out.push(c);
    }
    assert(s@.take(s@.len() as int) == s@);
    out
}

/// Unicode white space: the characters with the property `White_Space`.
pub open spec fn is_space(c: char) -> bool {
    let n = c as u32;
    ||| 0x9 <= n <= 0xd
    ||| n == 0x20
    ||| n == 0x85
    ||| n == 0xa0
    ||| n == 0x1680
    ||| 0x2000 <= n <= 0x200a
    ||| n == 0x2028
    ||| n == 0x2029
    ||| n == 0x202f
    ||| n == 0x205f
    ||| n == 0x3000
}

/// Whether a character is white space.
pub fn space(c: char) -> (r: bool)
    ensures
        r == is_space(c),
{
    let n: u32 = c as u32;
    (0x9 <= n && n <= 0xd) || n == 0x20 || n == 0x85 || n == 0xa0 || n == 0x1680 || (0x2000 <= n
        && n <= 0x200a) || n == 0x2028 || n == 0x2029 || n == 0x202f || n == 0x205f || n == 0x3000
}

/// What is left of a text after its longest prefix of characters with `p`.
pub open spec fn drop_while(s: Seq<char>, p: spec_fn(char) -> bool) -> Seq<char>
    decreases s.len(),
{
    if s.len() > 0 && p(s[0]) {
        drop_while(s.drop_first(), p)
    } else {
        s
    }
}

/// What is left of a text before its longest suffix of characters with `p`.
pub open spec fn drop_while_end(s: Seq<char>, p: spec_fn(char) -> bool) -> Seq<char>
    decreases s.len(),
{
    if s.len() > 0 && p(s.last()) {
        drop_while_end(s.drop_last(), p)
    } else {
        s
    }
}

/// A text without the white space around it.
pub open spec fn trimmed(s: Seq<char>) -> Seq<char> {
    drop_while_end(drop_while(s, |c: char| is_space(c)), |c: char| is_space(c))
}

/// `drop_while` cuts at an index: everything before it has `p`, what stands there has not.
pub proof fn lemma_drop_while(s: Seq<char>, p: spec_fn(char) -> bool, n: int)
    requires
        0 <= n <= s.len(),
        forall|i: int| 0 <= i < n ==> p(#[trigger] s[i]),
        n < s.len() ==> !p(s[n]),
    ensures
        drop_while(s, p) == s.skip(n),
    decreases n,
{
    if n == 0 {
        assert(s.skip(0) == s);
    } else {
        assert(p(s[0]));
        assert forall|i: int| 0 <= i < n - 1 implies p(#[trigger] s.drop_first()[i]) by {
            assert(s.drop_first()[i] == s[i + 1]);
        }
        lemma_drop_while(s.drop_first(), p, n - 1);
        assert(s.drop_first().skip(n - 1) == s.skip(n));
    }
}

/// `drop_while_end` cuts at an index: everything from it on has `p`, what stands before has not.
pub proof fn lemma_drop_while_end(s: Seq<char>, p: spec_fn(char) -> bool, n: int)
    requires
        0 <= n <= s.len(),
        forall|i: int| n <= i < s.len() ==> p(#[trigger] s[i]),
        n > 0 ==> !p(s[n - 1]),
    ensures
        drop_while_end(s, p) == s.take(n),
    decreases s.len() - n,
{
    if n == s.len() {
        assert(s.take(n) == s);
    } else {
        assert(p(s[s.len() - 1]));
        lemma_drop_while_end(s.drop_last(), p, n);
        assert(s.drop_last().take(n) == s.take(n));
    }
}

/// The text without the white space around it.
pub fn trim(s: &str) -> (r: &str)
    ensures
        r@ == trimmed(s@),
{
    let chars = chars_of(s);
    let ghost p = |c: char| is_space(c);
    let mut from: usize = 0;
    while from < chars.len() && space(chars[from])
        invariant
            chars@ == s@,
            from <= chars.len(),
            forall|i: int| 0 <= i < from ==> is_space(#[trigger] s@[i]),
        decreases chars.len() - from,
    {
        from = from + 1;
    }
    let mut to: usize = chars.len();
    while to > from && space(chars[to - 1])
        invariant
            chars@ == s@,
            from <= to <= chars.len(),
            forall|i: int| to <= i < s@.len() ==> is_space(#[trigger] s@[i]),
        decreases to,
    {
        to = to - 1;
    }
    proof {
        lemma_drop_while(s@, p, from as int);
        let rest = s@.skip(from as int);
        assert forall|i: int| to - from <= i < rest.len() implies p(#[trigger] rest[i]) by {
            assert(rest[i] == s@[i + from]);
        }
        lemma_drop_while_end(rest, p, to - from);
        assert(rest.take(to - from) == s@.subrange(from as int, to as int));
    }
    s.substring_char(from, to)
}

/// The text without the line ends (carriage returns and line feeds) behind it.
pub open spec fn without_line_end(s: Seq<char>) -> Seq<char> {
    drop_while_end(s, |c: char| c == '\r' || c == '\n')
}

/// The text without the line ends behind it.
pub fn trim_line_end(s: &str) -> (r: String)
    ensures
        r@ == without_line_end(s@),
{
    let chars = chars_of(s);
    let mut to: usize = chars.len();
    while to > 0 && (chars[to - 1] == '\r' || chars[to - 1] == '\n')
        invariant
            chars@ == s@,
            to <= chars.len(),
            forall|i: int| to <= i < s@.len() ==> (#[trigger] s@[i] == '\r' || s@[i] == '\n'),
        decreases to,
    {
        to = to - 1;
    }
    proof {
        lemma_drop_while_end(s@, |c: char| c == '\r' || c == '\n', to as int);
        assert(s@.take(to as int) == s@.subrange(0, to as int));
    }
    s.substring_char(0, to).to_owned()
}

/// A character with an ASCII capital turned into its small letter.
pub open spec fn lower_char(c: char) -> char {
    if 'A' <= c <= 'Z' {
        ((c as u32 + 32) as u32) as char
    } else {
        c
    }
}

/// A text with each ASCII capital turned into its small letter.
pub open spec fn lowered(s: Seq<char>) -> Seq<char> {
    s.map_values(|c: char| lower_char(c))
}

/// The text with each ASCII capital turned into its small letter.
pub fn to_lower(s: &str) -> (r: String)
    ensures
        r@ == lowered(s@),
{
    let mut out = String::new();
    for c in it: s.chars()
        invariant
            it.seq() == s@,
            out@ == lowered(s@).take(it.index()),
    {
        if 'A' <= c && c <= 'Z' {
            let lower: char = (c as u8 + 32) as char;
            out.push(lower);
        } else {
            out.push(c);
        }
    }
    assert(lowered(s@).take(s@.len() as int) == lowered(s@));
    out
}

/// That a character is a decimal digit.
pub open spec fn is_digit(c: char) -> bool {
    '0' <= c <= '9'
}

/// That a text is made of decimal digits.
pub open spec fn all_digits(s: Seq<char>) -> bool {
    forall|i: int| 0 <= i < s.len() ==> is_digit(#[trigger] s[i])
}

/// The number that decimal digits write.
pub open spec fn digits_value(s: Seq<char>) -> nat
    decreases s.len(),
{
    if s.len() == 0 {
        0
    } else {
        digits_value(s.drop_last()) * 10 + (s.last() as nat - '0' as nat) as nat
    }
}

/// The digits of a decimal number: a plus sign in front is no digit.
pub open spec fn unsigned_digits(s: Seq<char>) -> Seq<char> {
    if s.len() > 0 && s[0] == '+' {
        s.drop_first()
    } else {
        s
    }
}

/// The number that a text writes in decimal, if it writes one that is at most `max`:
/// one or more digits, perhaps behind a plus sign, and nothing else.
pub open spec fn number_up_to(s: Seq<char>, max: nat) -> Option<nat> {
    let digits = unsigned_digits(s);
    if digits.len() > 0 && all_digits(digits) && digits_value(digits) <= max {
        Some(digits_value(digits))
    } else {
        None
    }
}

/// The number that a text writes in decimal, if it writes one that fits a `u64`.
pub open spec fn number(s: Seq<char>) -> Option<u64> {
    match number_up_to(s, u64::MAX as nat) {
        Some(n) => Some(n as u64),
        None => None,
    }
}

/// More digits never write a smaller number.
proof fn lemma_digits_grow(s: Seq<char>, n: int)
    requires
        0 <= n <= s.len(),
        all_digits(s),
    ensures
        digits_value(s.take(n)) <= digits_value(s),
    decreases s.len() - n,
{
    if n == s.len() {
        assert(s.take(n) == s);
    } else {
        assert(s.take(n) == s.drop_last().take(n));
        assert(is_digit(s[s.len() - 1]));
        assert forall|i: int| 0 <= i < s.drop_last().len() implies is_digit(
            #[trigger] s.drop_last()[i],
        ) by {
            assert(is_digit(s[i]));
        }
        lemma_digits_grow(s.drop_last(), n);
    }
}

/// Reads a decimal number.
pub fn parse_u64(s: &str) -> (r: Option<u64>)
    ensures
        r == number(s@),
{
    let chars = chars_of(s);
    let start: usize = if chars.len() > 0 && chars[0] == '+' {
        1
    } else {
        0
    };
    let ghost digits = unsigned_digits(s@);
    assert(digits == s@.skip(start as int));
    if chars.len() == start {
        return None;
    }
    let mut value: u64 = 0;
    let mut i: usize = start;
    assert(digits.take(0) == Seq::<char>::empty());
    while i < chars.len()
        invariant
            chars@ == s@,
            start <= i <= chars.len(),
            digits == s@.skip(start as int),
            digits == unsigned_digits(s@),
            all_digits(digits.take(i - start)),
            value == digits_value(digits.take(i - start)),
        decreases chars.len() - i,
    {
        let c = chars[i];
        let ghost n = i - start;
        assert(digits[n] == c);
        assert(digits.take(n + 1).drop_last() == digits.take(n));
        assert(digits.take(n + 1).last() == c);
        if !('0' <= c && c <= '9') {
            assert(!is_digit(digits[n]));
            return None;
        }
        let digit: u64 = (c as u8 - 48) as u64;
        proof {
            assert(digit == (c as nat - '0' as nat));
            assert forall|k: int| 0 <= k < n + 1 implies is_digit(
                #[trigger] digits.take(n + 1)[k],
            ) by {
                if k < n {
                    assert(is_digit(digits.take(n)[k]));
                }
            }
            assert(digits_value(digits.take(n + 1)) == value * 10 + digit);
            if all_digits(digits) {
                lemma_digits_grow(digits, n + 1);
            }
        }
        if value > (u64::MAX - digit) / 10 {
            return None;
        }
        value = value * 10 + digit;
        i = i + 1;
    }
    assert(digits.take(digits.len() as int) == digits);
    Some(value)
}

/// Reads a decimal number that fits a `u32`.
pub fn parse_u32(s: &str) -> (r: Option<u32>)
    ensures
        match r {
            Some(n) => number_up_to(s@, u32::MAX as nat) == Some(n as nat),
            None => number_up_to(s@, u32::MAX as nat) is None,
        },
{
    match parse_u64(s) {
        Some(n) => if n <= 0xffff_ffff {
            Some(n as u32)
        } else {
            None
        },
        None => None,
    }
}

/// Reads a decimal number that fits a `u16`.
pub fn parse_u16(s: &str) -> (r: Option<u16>)
    ensures
        match r {
            Some(n) => number_up_to(s@, u16::MAX as nat) == Some(n as nat),
            None => number_up_to(s@, u16::MAX as nat) is None,
        },
{
    match parse_u64(s) {
        Some(n) => if n <= 0xffff {
            Some(n as u16)
        } else {
            None
        },
        None => None,
    }
}

/// A number in decimal, without leading zeros.
pub open spec fn decimal_of(n: nat) -> Seq<char>
    decreases n,
{
    if n < 10 {
        seq![(48 + n) as char]
    } else {
        decimal_of(n / 10).push((48 + n % 10) as char)
    }
}

/// Writes a number in decimal.
pub fn decimal(n: u64) -> (r: String)
    ensures
        r@ == decimal_of(n as nat),
    decreases n,
{
    if n < 10 {
        let mut out = String::new();
        out.push((48 + n as u8) as char);
        assert(out@ == decimal_of(n as nat));
        out
    } else {
        let mut out = decimal(n / 10);
        out.push((48 + (n % 10) as u8) as char);
        out
    }
}

proof fn lemma_decimal_digits(n: nat)
    ensures
        decimal_of(n).len() > 0,
        all_digits(decimal_of(n)),
        digits_value(decimal_of(n)) == n,
    decreases n,
{
    if n < 10 {
        let d = decimal_of(n);
        assert(d == seq![(48 + n) as char]);
        assert(d.drop_last() == Seq::<char>::empty());
        assert(digits_value(d.drop_last()) == 0);
    } else {
        lemma_decimal_digits(n / 10);
        let d = decimal_of(n);
        assert(d.drop_last() == decimal_of(n / 10));
        assert forall|i: int| 0 <= i < d.len() implies is_digit(#[trigger] d[i]) by {
            if i < d.len() - 1 {
                assert(is_digit(decimal_of(n / 10)[i]));
            }
        }
    }
}

/// A number that was written in decimal is read back.
pub proof fn decimal_reads_back(n: u64)
    ensures
        number(decimal_of(n as nat)) == Some(n),
{
    lemma_decimal_digits(n as nat);
    assert(is_digit(decimal_of(n as nat)[0]));
}

/// What `drop_while` leaves is never longer, and shorter where it drops anything.
pub proof fn lemma_drop_while_shorter(s: Seq<char>, p: spec_fn(char) -> bool)
    ensures
        drop_while(s, p).len() <= s.len(),
        s.len() > 0 && p(s[0]) ==> drop_while(s, p).len() < s.len(),
    decreases s.len(),
{
    if s.len() > 0 && p(s[0]) {
        lemma_drop_while_shorter(s.drop_first(), p);
    }
}

/// A text after its leading white space.
pub open spec fn after_space(s: Seq<char>) -> Seq<char> {
    drop_while(s, |c: char| is_space(c))
}

/// A text after its leading characters that are no white space.
pub open spec fn after_word(s: Seq<char>) -> Seq<char> {
    drop_while(s, |c: char| !is_space(c))
}

/// The words of a text: what stands between white space.
pub open spec fn words(s: Seq<char>) -> Seq<Seq<char>>
    decreases s.len(),
{
    let t = after_space(s);
    if t.len() == 0 {
        Seq::empty()
    } else {
        proof {
            lemma_drop_while_shorter(s, |c: char| is_space(c));
            lemma_drop_while_stops(s, |c: char| is_space(c));
            lemma_drop_while_shorter(t, |c: char| !is_space(c));
        }
        let rest = after_word(t);
        seq![t.take(t.len() - rest.len())] + words(rest)
    }
}

/// What `drop_while` leaves does not start with what it drops.
pub proof fn lemma_drop_while_stops(s: Seq<char>, p: spec_fn(char) -> bool)
    ensures
        drop_while(s, p).len() > 0 ==> !p(drop_while(s, p)[0]),
    decreases s.len(),
{
    if s.len() > 0 && p(s[0]) {
        lemma_drop_while_stops(s.drop_first(), p);
    }
}

/// The words of a text.
pub fn words_of(s: &str) -> (r: Vec<String>)
    ensures
        r.deep_view() == words(s@),
{
    let chars = chars_of(s);
    let ghost is_sp = |c: char| is_space(c);
    let ghost not_sp = |c: char| !is_space(c);
    let mut out: Vec<String> = Vec::new();
    let mut i: usize = 0;
    assert(s@.skip(0) == s@);
    assert(out.deep_view() =~= Seq::<Seq<char>>::empty());
    assert(out.deep_view() + words(s@) =~= words(s@));
    while i < chars.len()
        invariant
            chars@ == s@,
            i <= chars.len(),
            is_sp == (|c: char| is_space(c)),
            not_sp == (|c: char| !is_space(c)),
            out.deep_view() + words(s@.skip(i as int)) == words(s@),
        decreases chars.len() - i,
    {
        let mut from: usize = i;
        while from < chars.len() && space(chars[from])
            invariant
                chars@ == s@,
                i <= from <= chars.len(),
                forall|k: int| i <= k < from ==> is_space(#[trigger] s@[k]),
            decreases chars.len() - from,
        {
            from = from + 1;
        }
        let ghost here = s@.skip(i as int);
        proof {
            assert forall|k: int| 0 <= k < from - i implies is_sp(#[trigger] here[k]) by {
                assert(here[k] == s@[k + i]);
            }
            lemma_drop_while(here, is_sp, from - i);
            assert(here.skip(from - i) == s@.skip(from as int));
            assert(after_space(here) == s@.skip(from as int));
        }
        if from == chars.len() {
            assert(words(here) == Seq::<Seq<char>>::empty());
            assert(s@.skip(from as int) == Seq::<char>::empty());
            assert(words(s@.skip(from as int)) == Seq::<Seq<char>>::empty());
            i = from;
        } else {
            let mut to: usize = from;
            let mut word = String::new();
            while to < chars.len() && !space(chars[to])
                invariant
                    chars@ == s@,
                    from <= to <= chars.len(),
                    forall|k: int| from <= k < to ==> !is_space(#[trigger] s@[k]),
                    word@ == s@.subrange(from as int, to as int),
                decreases chars.len() - to,
            {
                word.push(chars[to]);
                to = to + 1;
            }
            proof {
                let t = s@.skip(from as int);
                assert forall|k: int| 0 <= k < to - from implies not_sp(#[trigger] t[k]) by {
                    assert(t[k] == s@[k + from]);
                }
                lemma_drop_while(t, not_sp, to - from);
                assert(t.skip(to - from) == s@.skip(to as int));
                assert(after_word(t) == s@.skip(to as int));
                assert(t.take(to - from) == s@.subrange(from as int, to as int));
                assert(words(here) == seq![word@] + words(s@.skip(to as int)));
            }
            let ghost before = out;
            out.push(word);
            proof {
                assert(out.deep_view() =~= before.deep_view().push(word@));
                assert(out.deep_view() + words(s@.skip(to as int)) =~= before.deep_view() + (
                seq![word@] + words(s@.skip(to as int))));
            }
            i = to;
        }
    }
    proof {
        assert(s@.skip(i as int) == Seq::<char>::empty());
        assert(words(s@.skip(i as int)) == Seq::<Seq<char>>::empty());
        assert(out.deep_view() + Seq::<Seq<char>>::empty() =~= out.deep_view());
    }
    out
}

// =============================== what the readings promise ===============================

/// A text loses the white space around it, and nothing but that.
pub proof fn trimming_takes_white_space_only(front: Seq<char>, s: Seq<char>, back: Seq<char>)
    requires
        forall|i: int| 0 <= i < front.len() ==> is_space(#[trigger] front[i]),
        forall|i: int| 0 <= i < back.len() ==> is_space(#[trigger] back[i]),
        s.len() > 0 ==> !is_space(s[0]) && !is_space(s[s.len() - 1]),
    ensures
        trimmed(front + s + back) == s,
{
    let p = |c: char| is_space(c);
    let all = front + s + back;
    if s.len() > 0 {
        assert(all[front.len() as int] == s[0]);
        assert forall|i: int| 0 <= i < front.len() implies p(#[trigger] all[i]) by {
            assert(all[i] == front[i]);
        }
        lemma_drop_while(all, p, front.len() as int);
        let rest = all.skip(front.len() as int);
        assert(rest =~= s + back);
        assert forall|i: int| s.len() <= i < rest.len() implies p(#[trigger] rest[i]) by {
            assert(rest[i] == back[i - s.len()]);
        }
        assert(rest[s.len() - 1] == s[s.len() - 1]);
        lemma_drop_while_end(rest, p, s.len() as int);
        assert(rest.take(s.len() as int) =~= s);
    } else {
        assert forall|i: int| 0 <= i < all.len() implies p(#[trigger] all[i]) by {
            if i < front.len() {
                assert(all[i] == front[i]);
            } else {
                assert(all[i] == back[i - front.len()]);
            }
        }
        lemma_drop_while(all, p, all.len() as int);
        assert(all.skip(all.len() as int) =~= Seq::<char>::empty());
        assert(s =~= Seq::<char>::empty());
    }
}

/// Blanks, tabs and the ends of lines are white space; letters, digits and signs of ASCII
/// are not.
pub proof fn white_space_is_what_it_looks_like(c: char)
    ensures
        c == ' ' || c == '\t' || c == '\n' || c == '\r' ==> is_space(c),
        '!' <= c <= '~' ==> !is_space(c),
        c == '\u{2744}' ==> !is_space(c),
{
}

/// A line loses the ends of lines behind it, and nothing but those.
pub proof fn line_ends_come_off(s: Seq<char>, back: Seq<char>)
    requires
        forall|i: int| 0 <= i < back.len() ==> (#[trigger] back[i] == '\r' || back[i] == '\n'),
        s.len() > 0 ==> s[s.len() - 1] != '\r' && s[s.len() - 1] != '\n',
    ensures
        without_line_end(s + back) == s,
{
    let p = |c: char| c == '\r' || c == '\n';
    let all = s + back;
    assert forall|i: int| s.len() <= i < all.len() implies p(#[trigger] all[i]) by {
        assert(all[i] == back[i - s.len()]);
    }
    assert(s.len() > 0 ==> all[s.len() - 1] == s[s.len() - 1]);
    lemma_drop_while_end(all, p, s.len() as int);
    assert(all.take(s.len() as int) =~= s);
}

/// A number is read from its digits, be a plus sign in front or not, with leading zeros or
/// not.
pub proof fn numbers_are_read(n: u64)
    ensures
        number(decimal_of(n as nat)) == Some(n),
        number(seq!['+'] + decimal_of(n as nat)) == Some(n),
        number(seq!['0'] + decimal_of(n as nat)) == Some(n),
{
    decimal_reads_back(n);
    lemma_decimal_digits(n as nat);
    let d = decimal_of(n as nat);
    assert(is_digit(d[0]));
    assert((seq!['+'] + d).drop_first() =~= d);
    let z = seq!['0'] + d;
    lemma_leading_zero(d);
    assert forall|i: int| 0 <= i < z.len() implies is_digit(#[trigger] z[i]) by {
        if i > 0 {
            assert(z[i] == d[i - 1]);
        }
    }
    assert(z[0] == '0');
}

proof fn lemma_leading_zero(d: Seq<char>)
    ensures
        digits_value(seq!['0'] + d) == digits_value(d),
    decreases d.len(),
{
    let z = seq!['0'] + d;
    if d.len() == 0 {
        assert(z =~= seq!['0']);
        assert(z.drop_last() =~= Seq::<char>::empty());
        assert(digits_value(z.drop_last()) == 0);
        assert(digits_value(z) == 0);
    } else {
        lemma_leading_zero(d.drop_last());
        assert(z.drop_last() =~= seq!['0'] + d.drop_last());
        assert(z.last() == d.last());
    }
}

/// A text is no number if it is empty, or holds anything but digits behind a plus sign.
pub proof fn other_texts_are_no_numbers(s: Seq<char>, i: int)
    requires
        s.len() == 0 || s == seq!['+'] || (0 <= i < s.len() && !('0' <= s[i] <= '9') && (i > 0
            || s[i] != '+')),
    ensures
        number(s) is None,
{
    let digits = unsigned_digits(s);
    if s.len() > 0 && s != seq!['+'] {
        if s[0] == '+' {
            assert(digits[i - 1] == s[i]);
        } else {
            assert(digits[i] == s[i]);
        }
        assert(!all_digits(digits));
    } else if s.len() > 0 {
        assert(digits.len() == 0);
    }
}

/// A word stands before white space, and the other words behind it; in white space there
/// are none.
pub proof fn words_stand_between_white_space(word: Seq<char>, c: char, rest: Seq<char>)
    requires
        word.len() > 0,
        forall|i: int| 0 <= i < word.len() ==> !is_space(#[trigger] word[i]),
        is_space(c),
    ensures
        words(word + (seq![c] + rest)) == seq![word] + words(rest),
        words(word) == seq![word],
        words(seq![c] + rest) == words(rest),
        words(Seq::empty()) == Seq::<Seq<char>>::empty(),
{
    let p = |c: char| is_space(c);
    let q = |c: char| !is_space(c);
    let gap = seq![c] + rest;
    let all = word + gap;
    assert(gap.drop_first() =~= rest);
    assert(gap[0] == c);
    assert(drop_while(gap, p) == drop_while(rest, p));
    assert(after_space(gap) == after_space(rest));
    assert(words(gap) == words(rest));
    assert(all[0] == word[0]);
    lemma_drop_while(all, p, 0);
    assert(all.skip(0) =~= all);
    assert(after_space(all) == all);
    assert forall|i: int| 0 <= i < word.len() implies q(#[trigger] all[i]) by {
        assert(all[i] == word[i]);
    }
    assert(all[word.len() as int] == c);
    lemma_drop_while(all, q, word.len() as int);
    assert(all.skip(word.len() as int) =~= gap);
    assert(all.take(all.len() - gap.len()) =~= word);
    lemma_drop_while(word, p, 0);
    assert(word.skip(0) =~= word);
    lemma_drop_while(word, q, word.len() as int);
    let none = Seq::<char>::empty();
    assert(word.skip(word.len() as int) =~= none);
    assert(after_space(none) == none);
    assert(words(none) =~= Seq::<Seq<char>>::empty());
    assert(word.take(word.len() - none.len()) =~= word);
    assert(seq![word] + Seq::<Seq<char>>::empty() =~= seq![word]);
}

/// White space is what Unicode says it is, and nothing else.
pub proof fn white_space_is_all_listed(c: char)
    ensures
        is_space(c) <==> {
            ||| c == '\t' || c == '\n' || c == '\u{b}' || c == '\u{c}' || c == '\r' || c == ' '
            ||| c == '\u{85}' || c == '\u{a0}' || c == '\u{1680}'
            ||| '\u{2000}' <= c <= '\u{200a}'
            ||| c == '\u{2028}' || c == '\u{2029}' || c == '\u{202f}' || c == '\u{205f}'
            ||| c == '\u{3000}'
        },
{
}

} // verus!
