//! Numerals and separated fields over sequences of characters.
//!
//! A numeral is an optional `+` followed by one or more digits; its value is
//! read most significant digit first. Text is cut into fields at every
//! occurrence of a separator, so a text with `n` separators has `n + 1`
//! fields, some of which may be empty.

use vstd::prelude::*;

verus! {

/// The value of `c` as a digit in base `radix`: `0`-`9` count from zero,
/// letters of either case count from ten. `None` where `c` is no digit of
/// that base.
pub open spec fn digit_value(c: char, radix: int) -> Option<int> {
    let v: int = if '0' <= c && c <= '9' {
        c as int - '0' as int
    } else if 'a' <= c && c <= 'z' {
        c as int - 'a' as int + 10
    } else if 'A' <= c && c <= 'Z' {
        c as int - 'A' as int + 10
    } else {
        36
    };
    if v < radix {
        Some(v)
    } else {
        None
    }
}

/// Every character of `s` is a digit in base `radix`.
pub open spec fn all_digits(s: Seq<char>, radix: int) -> bool {
    forall|i: int| 0 <= i < s.len() ==> (#[trigger] digit_value(s[i], radix)) is Some
}

/// The number that the digits of `s` write in base `radix`, most significant
/// digit first. The empty sequence writes zero.
pub open spec fn numeral_value(s: Seq<char>, radix: int) -> int
    decreases s.len(),
{
    if s.len() == 0 {
        0
    } else {
        numeral_value(s.drop_last(), radix) * radix + digit_value(s.last(), radix).unwrap()
    }
}

/// The digits of a numeral: `s` without its leading `+`, if it has one.
pub open spec fn unsigned_digits(s: Seq<char>) -> Seq<char> {
    if s.len() > 0 && s[0] == '+' {
        s.drop_first()
    } else {
        s
    }
}

/// Reads `s` as an unsigned numeral in base `radix` that is at most `max`.
/// `None` where `s` has no digits, holds a character that is no digit, or
/// writes a number above `max`.
pub open spec fn parse_unsigned(s: Seq<char>, radix: int, max: int) -> Option<int> {
    let digits = unsigned_digits(s);
    if digits.len() > 0 && all_digits(digits, radix) && numeral_value(digits, radix) <= max {
        Some(numeral_value(digits, radix))
    } else {
        None
    }
}

/// The lower-case hexadecimal digit for `d`, which is below sixteen.
pub open spec fn hex_digit(d: int) -> char {
    if d < 10 {
        ('0' as int + d) as char
    } else {
        ('a' as int + d - 10) as char
    }
}

/// `v` written in lower-case hexadecimal without leading zeros; zero is `0`.
pub open spec fn hex_text(v: nat) -> Seq<char>
    decreases v,
{
    if v < 16 {
        seq![hex_digit(v as int)]
    } else {
        hex_text(v / 16).push(hex_digit((v % 16) as int))
    }
}

/// `s` is the unique shortest lower-case hexadecimal numeral of its value: no
/// sign, no upper-case digit, and no leading zero unless it is `0` itself.
pub open spec fn is_canonical_hex(s: Seq<char>) -> bool {
    &&& s.len() > 0
    &&& forall|i: int|
        0 <= i < s.len() ==> ('0' <= #[trigger] s[i] && s[i] <= '9') || ('a' <= s[i] && s[i]
            <= 'f')
    &&& s.len() > 1 ==> s[0] != '0'
}

/// The fields of `s` between occurrences of `sep`, in order.
pub open spec fn split(s: Seq<char>, sep: char) -> Seq<Seq<char>>
    decreases s.len(),
{
    if s.len() == 0 {
        seq![Seq::<char>::empty()]
    } else {
        let before = split(s.drop_last(), sep);
        if s.last() == sep {
            before.push(Seq::<char>::empty())
        } else {
            before.drop_last().push(before.last().push(s.last()))
        }
    }
}

/// The fields one after another with `sep` between each two.
pub open spec fn join(fields: Seq<Seq<char>>, sep: char) -> Seq<char>
    decreases fields.len(),
{
    if fields.len() == 0 {
        Seq::<char>::empty()
    } else if fields.len() == 1 {
        fields[0]
    } else {
        join(fields.drop_last(), sep).push(sep) + fields.last()
    }
}

/// No character of `s` is `sep`.
pub open spec fn free_of(s: Seq<char>, sep: char) -> bool {
    forall|i: int| 0 <= i < s.len() ==> s[i] != sep
}

/// The views of the vectors in `fields`.
pub open spec fn field_views(fields: Seq<Vec<char>>) -> Seq<Seq<char>> {
    fields.map_values(|f: Vec<char>| f@)
}

/// `String::push`: appends one character to the end of the string.
#[verifier::external_body]
fn push_char(s: &mut String, c: char)
    ensures
        final(s)@ == old(s)@.push(c),
{
    s.push(c)
}

/// The characters of `s`, in order.
pub fn chars_of(s: &str) -> (v: Vec<char>)
    ensures
        v@ == s@,
{
    broadcast use vstd::string::group_string_axioms;

    let mut v: Vec<char> = Vec::new();
    let it = s.chars();
    for c in iter: it
        invariant
            iter.seq() == s@,
            v@ == s@.take(iter.index()),
    {
        assert(s@.take(iter.index() + 1) =~= s@.take(iter.index()).push(c));
        v.push(c);
    }
    assert(s@.take(s@.len() as int) =~= s@);
    v
}

/// A string that holds the characters of `chars`, in order.
pub fn string_of(chars: &Vec<char>) -> (s: String)
    ensures
        s@ == chars@,
{
    let mut s = String::new();
    let mut i: usize = 0;
    while i < chars.len()
        invariant
            i <= chars.len(),
            s@ == chars@.take(i as int),
        decreases chars.len() - i,
    {
        assert(chars@.take(i + 1) =~= chars@.take(i as int).push(chars@[i as int]));
        push_char(&mut s, chars[i]);
        i += 1;
    }
    assert(chars@.take(chars@.len() as int) =~= chars@);
    s
}

/// The digit that `c` is in a base of at most thirty-six, if it is one.
pub fn digit_of(c: char, radix: u32) -> (r: Option<u32>)
    requires
        radix <= 36,
    ensures
        r matches Some(d) ==> digit_value(c, radix as int) == Some(d as int),
        r is None ==> digit_value(c, radix as int) is None,
{
    let v: u32 = if '0' <= c && c <= '9' {
        c as u32 - '0' as u32
    } else if 'a' <= c && c <= 'z' {
        c as u32 - 'a' as u32 + 10
    } else if 'A' <= c && c <= 'Z' {
        c as u32 - 'A' as u32 + 10
    } else {
        36
    };
    if v < radix {
        Some(v)
    } else {
        None
    }
}

/// A numeral never writes less than one of its prefixes does.
pub proof fn lemma_numeral_value_grows(s: Seq<char>, n: int, radix: int)
    requires
        1 <= radix <= 36,
        all_digits(s, radix),
        0 <= n <= s.len(),
    ensures
        0 <= numeral_value(s.take(n), radix) <= numeral_value(s, radix),
    decreases s.len() - n,
{
    lemma_numeral_value_nonnegative(s.take(n), radix);
    if n == s.len() {
        assert(s.take(n) =~= s);
    } else {
        lemma_numeral_value_grows(s, n + 1, radix);
        let longer = s.take(n + 1);
        assert(longer.drop_last() =~= s.take(n));
        assert(digit_value(s[n], radix) is Some);
        let low = numeral_value(s.take(n), radix);
        assert(low * radix >= low) by (nonlinear_arith)
            requires
                low >= 0,
                radix >= 1,
        ;
    }
}

/// A numeral of digits writes no negative number.
pub proof fn lemma_numeral_value_nonnegative(s: Seq<char>, radix: int)
    requires
        1 <= radix <= 36,
        all_digits(s, radix),
    ensures
        0 <= numeral_value(s, radix),
    decreases s.len(),
{
    if s.len() > 0 {
        lemma_numeral_value_nonnegative(s.drop_last(), radix);
        assert(digit_value(s.last(), radix) is Some);
        let low = numeral_value(s.drop_last(), radix);
        assert(low * radix >= 0) by (nonlinear_arith)
            requires
                low >= 0,
                radix >= 1,
        ;
    }
}

/// Reads a numeral in a base from two to thirty-six that writes at most
/// `max`.
pub fn parse_radix(field: &Vec<char>, radix: u32, max: u64) -> (r: Option<u64>)
    requires
        2 <= radix <= 36,
    ensures
        r matches Some(v) ==> parse_unsigned(field@, radix as int, max as int) == Some(v as int),
        r is None ==> parse_unsigned(field@, radix as int, max as int) is None,
{
    let n = field.len();
    let start: usize = if n > 0 && field[0] == '+' {
        1
    } else {
        0
    };
    if start == n {
        return None;
    }
    let ghost digits = unsigned_digits(field@);
    assert(digits =~= field@.skip(start as int));
    let mut acc: u64 = 0;
    let mut i: usize = start;
    while i < n
        invariant
            start <= i <= n,
            n == field.len(),
            2 <= radix <= 36,
            digits == field@.skip(start as int),
            digits == unsigned_digits(field@),
            all_digits(digits.take(i - start), radix as int),
            acc as int == numeral_value(digits.take(i - start), radix as int),
            acc <= max,
        decreases n - i,
    {
        let ghost seen = digits.take(i - start);
        let ghost next = digits.take(i - start + 1);
        assert(next.drop_last() =~= seen);
        assert(next.last() == field@[i as int]);
        match digit_of(field[i], radix) {
            None => {
                assert(digit_value(digits[i - start], radix as int) is None);
                return None;
            },
            Some(d) => {
                assert forall|k: int| 0 <= k < next.len() implies (#[trigger] digit_value(
                    next[k],
                    radix as int,
                )) is Some by {
                    if k < seen.len() {
                        assert(next[k] == seen[k]);
                    }
                }
                assert(acc * radix <= u64::MAX * 36) by (nonlinear_arith)
                    requires
                        acc <= u64::MAX,
                        radix <= 36,
                ;
                let longer: u128 = acc as u128 * radix as u128 + d as u128;
                if longer > max as u128 {
                    proof {
                        if all_digits(digits, radix as int) {
                            lemma_numeral_value_grows(digits, i - start + 1, radix as int);
                        }
                    }
                    return None;
                }
                acc = longer as u64;
            },
        }
        i += 1;
    }
    assert(digits.take(n - start) =~= digits);
    Some(acc)
}

/// Reads a hexadecimal numeral that fits in sixty-four bits.
pub fn parse_hex_u64(field: &Vec<char>) -> (r: Option<u64>)
    ensures
        r matches Some(v) ==> parse_unsigned(field@, 16, u64::MAX as int) == Some(v as int),
        r is None ==> parse_unsigned(field@, 16, u64::MAX as int) is None,
{
    parse_radix(field, 16, u64::MAX)
}

/// Reads a decimal numeral that fits in eight bits.
pub fn parse_decimal_u8(field: &Vec<char>) -> (r: Option<u8>)
    ensures
        r matches Some(v) ==> parse_unsigned(field@, 10, u8::MAX as int) == Some(v as int),
        r is None ==> parse_unsigned(field@, 10, u8::MAX as int) is None,
{
    match parse_radix(field, 10, 255) {
        Some(v) => Some(v as u8),
        None => None,
    }
}

/// The lower-case hexadecimal digit for a number below sixteen.
pub fn hex_digit_of(d: u8) -> (c: char)
    requires
        d < 16,
    ensures
        c == hex_digit(d as int),
{
    if d < 10 {
        ('0' as u8 + d) as char
    } else {
        ('a' as u8 + (d - 10)) as char
    }
}

/// `v` in lower-case hexadecimal without leading zeros.
pub fn hex_chars(v: u64) -> (r: Vec<char>)
    ensures
        r@ == hex_text(v as nat),
{
    // Digits from the least significant upward, all but the leading one.
    let mut low: Vec<char> = Vec::new();
    let mut x: u64 = v;
    while x >= 16
        invariant
            hex_text(v as nat) == hex_text(x as nat) + low@.reverse(),
        decreases x,
    {
        let d = hex_digit_of((x % 16) as u8);
        proof {
            let longer = low@.push(d);
            assert(longer.reverse() =~= seq![d] + low@.reverse());
            assert(hex_text(x as nat) + low@.reverse() =~= hex_text((x / 16) as nat)
                + longer.reverse());
        }
        low.push(d);
        x = x / 16;
    }
    let mut r: Vec<char> = Vec::new();
    r.push(hex_digit_of(x as u8));
    let n = low.len();
    let mut i: usize = n;
    while i > 0
        invariant
            i <= n,
            n == low.len(),
            r@.len() == 1 + (n - i),
            r@[0] == hex_digit(x as int),
            forall|k: int| 1 <= k < r@.len() ==> #[trigger] r@[k] == low@[n - k],
        decreases i,
    {
        i -= 1;
        r.push(low[i]);
    }
    assert(r@ =~= hex_text(x as nat) + low@.reverse());
    r
}

/// Cuts `s` into its fields at every occurrence of `sep`.
pub fn split_fields(s: &str, sep: char) -> (fields: Vec<Vec<char>>)
    ensures
        field_views(fields@) == split(s@, sep),
{
    broadcast use vstd::string::group_string_axioms;

    let mut fields: Vec<Vec<char>> = Vec::new();
    let mut current: Vec<char> = Vec::new();
    let it = s.chars();
    for c in iter: it
        invariant
            iter.seq() == s@,
            field_views(fields@).push(current@) == split(s@.take(iter.index()), sep),
    {
        let ghost seen = s@.take(iter.index());
        let ghost next = s@.take(iter.index() + 1);
        assert(next.drop_last() =~= seen);
        assert(next.last() == c);
        let ghost before = field_views(fields@).push(current@);
        if c == sep {
            proof {
                assert(field_views(fields@.push(current)) =~= before);
            }
            fields.push(current);
            current = Vec::new();
        } else {
            current.push(c);
            assert(field_views(fields@).push(current@) =~= before.drop_last().push(
                before.last().push(c),
            ));
        }
    }
    assert(s@.take(s@.len() as int) =~= s@);
    assert(field_views(fields@.push(current)) =~= field_views(fields@).push(current@));
    fields.push(current);
    fields
}

/// What holds of each hexadecimal digit.
pub proof fn lemma_hex_digit(d: int)
    requires
        0 <= d < 16,
    ensures
        digit_value(hex_digit(d), 16) == Some(d),
        ('0' <= hex_digit(d) && hex_digit(d) <= '9') || ('a' <= hex_digit(d) && hex_digit(d)
            <= 'f'),
        hex_digit(d) != '-',
        hex_digit(d) != '+',
        hex_digit(d) == '0' <==> d == 0,
{
}

/// A lower-case hexadecimal digit is the digit of its own value.
pub proof fn lemma_digit_of_hex_char(c: char)
    requires
        ('0' <= c && c <= '9') || ('a' <= c && c <= 'f'),
    ensures
        digit_value(c, 16) is Some,
        0 <= digit_value(c, 16).unwrap() < 16,
        hex_digit(digit_value(c, 16).unwrap()) == c,
        c != '-',
        c != '+',
{
}

/// The hexadecimal text of a number is canonical, holds neither sign nor
/// dash, and writes that number.
pub proof fn lemma_hex_text(v: nat)
    ensures
        is_canonical_hex(hex_text(v)),
        all_digits(hex_text(v), 16),
        numeral_value(hex_text(v), 16) == v,
        free_of(hex_text(v), '-'),
        hex_text(v)[0] != '+',
        v > 0 ==> hex_text(v)[0] != '0',
    decreases v,
{
    let s = hex_text(v);
    if v < 16 {
        lemma_hex_digit(v as int);
        assert(s.drop_last() =~= Seq::<char>::empty());
        assert(numeral_value(s.drop_last(), 16) == 0);
    } else {
        let t = hex_text(v / 16);
        lemma_hex_text(v / 16);
        lemma_hex_digit((v % 16) as int);
        assert(s.drop_last() =~= t);
        assert(s[0] == t[0]);
        assert forall|i: int| 0 <= i < s.len() implies (('0' <= #[trigger] s[i] && s[i] <= '9')
            || ('a' <= s[i] && s[i] <= 'f')) && s[i] != '-' && digit_value(s[i], 16) is Some by {
            if i < t.len() {
                assert(s[i] == t[i]);
                assert(digit_value(t[i], 16) is Some);
            }
        }
    }
}

/// The hexadecimal text of a number reads back as that number, whatever
/// bound at or above it is asked for.
pub proof fn lemma_parse_hex_text(v: nat, max: int)
    requires
        v <= max,
    ensures
        parse_unsigned(hex_text(v), 16, max) == Some(v as int),
{
    lemma_hex_text(v);
}

/// A canonical hexadecimal numeral is the hexadecimal text of its value.
pub proof fn lemma_hex_text_of_canonical(s: Seq<char>)
    requires
        is_canonical_hex(s),
    ensures
        all_digits(s, 16),
        unsigned_digits(s) == s,
        numeral_value(s, 16) >= 0,
        s[0] != '0' ==> numeral_value(s, 16) >= 1,
        hex_text(numeral_value(s, 16) as nat) == s,
    decreases s.len(),
{
    assert forall|i: int| 0 <= i < s.len() implies (#[trigger] digit_value(s[i], 16)) is Some by {
        lemma_digit_of_hex_char(s[i]);
    }
    lemma_digit_of_hex_char(s[0]);
    lemma_digit_of_hex_char(s.last());
    let d = digit_value(s.last(), 16).unwrap();
    if s.len() == 1 {
        assert(s.drop_last() =~= Seq::<char>::empty());
        assert(numeral_value(s.drop_last(), 16) == 0);
        assert(numeral_value(s, 16) == d);
        assert(hex_text(d as nat) =~= s);
    } else {
        let t = s.drop_last();
        assert(t[0] == s[0]);
        assert forall|i: int| 0 <= i < t.len() implies ('0' <= #[trigger] t[i] && t[i] <= '9') || (
        'a' <= t[i] && t[i] <= 'f') by {
            assert(t[i] == s[i]);
        }
        lemma_hex_text_of_canonical(t);
        let high = numeral_value(t, 16);
        assert(numeral_value(s, 16) == high * 16 + d);
        assert((high * 16 + d) / 16 == high);
        assert((high * 16 + d) % 16 == d);
        assert(hex_text((high * 16 + d) as nat) =~= t.push(s.last()));
        assert(t.push(s.last()) =~= s);
    }
}

/// Appending text without separators lengthens the last field.
pub proof fn lemma_split_append(s: Seq<char>, t: Seq<char>, sep: char)
    requires
        free_of(t, sep),
    ensures
        split(s, sep).len() >= 1,
        split(s + t, sep) == split(s, sep).drop_last().push(split(s, sep).last() + t),
    decreases t.len(),
{
    lemma_split_fields(s, sep);
    let b = split(s, sep);
    if t.len() == 0 {
        assert(s + t =~= s);
        assert(b.last() + t =~= b.last());
        assert(b.drop_last().push(b.last()) =~= b);
    } else {
        let t0 = t.drop_last();
        lemma_split_append(s, t0, sep);
        assert((s + t).drop_last() =~= s + t0);
        assert((s + t).last() == t.last());
        let mid = split(s + t0, sep);
        assert(mid.drop_last() =~= b.drop_last());
        assert(mid.last().push(t.last()) =~= b.last() + t);
    }
}

/// Text always has at least one field, and no field holds the separator.
pub proof fn lemma_split_fields(s: Seq<char>, sep: char)
    ensures
        split(s, sep).len() >= 1,
        forall|i: int| 0 <= i < split(s, sep).len() ==> free_of(#[trigger] split(s, sep)[i], sep),
    decreases s.len(),
{
    if s.len() > 0 {
        lemma_split_fields(s.drop_last(), sep);
        let before = split(s.drop_last(), sep);
        let after = split(s, sep);
        assert forall|i: int| 0 <= i < after.len() implies free_of(#[trigger] after[i], sep) by {
            if i < before.len() - 1 {
                assert(after[i] == before[i]);
            } else if s.last() != sep {
                assert(free_of(before.last(), sep));
            }
        }
    }
}

/// Joining the fields of a text gives the text back.
pub proof fn lemma_join_split(s: Seq<char>, sep: char)
    ensures
        join(split(s, sep), sep) == s,
    decreases s.len(),
{
    if s.len() == 0 {
        assert(join(split(s, sep), sep) =~= s);
    } else {
        let r = s.drop_last();
        let c = s.last();
        lemma_join_split(r, sep);
        lemma_split_fields(r, sep);
        let b = split(r, sep);
        let after = split(s, sep);
        if c == sep {
            assert(after.drop_last() =~= b);
            assert(join(after, sep) =~= r.push(sep));
        } else if b.len() == 1 {
            assert(join(after, sep) =~= b[0].push(c));
        } else {
            assert(after.drop_last() =~= b.drop_last());
            assert(join(after, sep) =~= join(b, sep).push(c));
        }
        assert(r.push(c) =~= s);
    }
}

/// Fields that hold no separator are the fields of their joined text.
pub proof fn lemma_split_join(fields: Seq<Seq<char>>, sep: char)
    requires
        fields.len() >= 1,
        forall|i: int| 0 <= i < fields.len() ==> free_of(#[trigger] fields[i], sep),
    ensures
        split(join(fields, sep), sep) == fields,
    decreases fields.len(),
{
    let empty = Seq::<char>::empty();
    if fields.len() == 1 {
        lemma_split_append(empty, fields[0], sep);
        assert(empty + fields[0] =~= fields[0]);
        assert(split(empty, sep) =~= seq![empty]);
        assert(split(fields[0], sep) =~= fields);
    } else {
        let init = fields.drop_last();
        assert forall|i: int| 0 <= i < init.len() implies free_of(#[trigger] init[i], sep) by {
            assert(init[i] == fields[i]);
        }
        lemma_split_join(init, sep);
        let head = join(init, sep).push(sep);
        assert(head.drop_last() =~= join(init, sep));
        assert(split(head, sep) =~= init.push(empty));
        lemma_split_append(head, fields.last(), sep);
        assert(empty + fields.last() =~= fields.last());
        assert(split(head + fields.last(), sep) =~= fields);
    }
}

} // verus!
