//! Verified text utilities: decimal and hexadecimal rendering, splitting,
//! prefix tests, and integer parsing, used to build and interpret the names
//! the store writes under its root directory.

use vstd::prelude::*;

verus! {

/// Relies on String::push: appends exactly the given character.
#[verifier::external_body]
pub(crate) fn push_char(s: &mut String, c: char)
    ensures
        final(s)@ == old(s)@.push(c),
{
    s.push(c);
}

pub fn chars_to_string(v: &Vec<char>) -> (r: String)
    ensures
        r@ == v@,
{
    let mut r = String::new();
    let mut i: usize = 0;
    while i < v.len()
        invariant
            i <= v.len(),
            r@ == v@.take(i as int),
        decreases v.len() - i,
    {
        push_char(&mut r, v[i]);
        assert(v@.take(i as int).push(v@[i as int]) =~= v@.take(i + 1));
        i = i + 1;
    }
    assert(v@.take(v.len() as int) =~= v@);
    r
}

pub open spec fn digit_char(d: int) -> char {
    if d == 0 {
        '0'
    } else if d == 1 {
        '1'
    } else if d == 2 {
        '2'
    } else if d == 3 {
        '3'
    } else if d == 4 {
        '4'
    } else if d == 5 {
        '5'
    } else if d == 6 {
        '6'
    } else if d == 7 {
        '7'
    } else if d == 8 {
        '8'
    } else if d == 9 {
        '9'
    } else {
        '?'
    }
}

/// The decimal rendering of a non-negative integer, most significant digit first.
pub open spec fn nat_text(n: int) -> Seq<char>
    recommends
        n >= 0,
    decreases n,
{
    if n < 10 {
        seq![digit_char(n)]
    } else {
        nat_text(n / 10).push(digit_char(n % 10))
    }
}

/// The decimal rendering of an integer, as `format!("{}")` produces it.
pub open spec fn int_text(n: int) -> Seq<char> {
    if n < 0 {
        seq!['-'] + nat_text(-n)
    } else {
        nat_text(n)
    }
}

fn exec_digit_char(d: u64) -> (c: char)
    requires
        d < 10,
    ensures
        c == digit_char(d as int),
{
    if d == 0 {
        '0'
    } else if d == 1 {
        '1'
    } else if d == 2 {
        '2'
    } else if d == 3 {
        '3'
    } else if d == 4 {
        '4'
    } else if d == 5 {
        '5'
    } else if d == 6 {
        '6'
    } else if d == 7 {
        '7'
    } else if d == 8 {
        '8'
    } else {
        '9'
    }
}

pub fn u64_string(m: u64) -> (r: String)
    ensures
        r@ == nat_text(m as int),
{
    let mut digits: Vec<char> = Vec::new();
    if m == 0 {
        digits.push('0');
        assert(digits@ =~= nat_text(0));
        return chars_to_string(&digits);
    }
    let mut x: u64 = m;
    while x > 0
        invariant
            x >= 0,
            x > 0 ==> nat_text(m as int) =~= nat_text(x as int) + digits@,
            x == 0 ==> digits@ =~= nat_text(m as int),
        decreases x,
    {
        let d: u64 = x % 10;
        let c = exec_digit_char(d);
        digits.insert(0, c);
        let ghost old_x = x;
        x = x / 10;
        proof {
            if old_x >= 10 {
                assert(nat_text(old_x as int) == nat_text(old_x as int / 10).push(
                    digit_char(old_x as int % 10),
                ));
                assert(nat_text(x as int) + digits@ =~= (nat_text(x as int).push(
                    digit_char(d as int),
                )) + digits@.drop_first());
            } else {
                assert(nat_text(old_x as int) == seq![digit_char(old_x as int)]);
                assert(digits@ =~= nat_text(old_x as int) + digits@.drop_first());
            }
        }
    }
    chars_to_string(&digits)
}

pub fn i32_string(n: i32) -> (r: String)
    ensures
        r@ == int_text(n as int),
{
    if n >= 0 {
        u64_string(n as u64)
    } else {
        let m: u64 = (-(n as i64)) as u64;
        let digits = u64_string(m);
        let mut r = String::new();
        push_char(&mut r, '-');
        r.append(digits.as_str());
        assert(r@ =~= seq!['-'] + nat_text(-(n as int)));
        r
    }
}

pub open spec fn hex_char_of(d: int) -> char {
    if d < 10 {
        digit_char(d)
    } else if d == 10 {
        'a'
    } else if d == 11 {
        'b'
    } else if d == 12 {
        'c'
    } else if d == 13 {
        'd'
    } else if d == 14 {
        'e'
    } else if d == 15 {
        'f'
    } else {
        '?'
    }
}

/// Two lowercase hex digits of one byte, high nibble first.
pub open spec fn hex_of_byte(b: u8) -> Seq<char> {
    seq![hex_char_of(b as int / 16), hex_char_of(b as int % 16)]
}

/// Lowercase hex rendering of a byte string, two digits per byte.
pub open spec fn hex_of(bytes: Seq<u8>) -> Seq<char>
    decreases bytes.len(),
{
    if bytes.len() == 0 {
        Seq::empty()
    } else {
        hex_of_byte(bytes[0]) + hex_of(bytes.drop_first())
    }
}

pub proof fn lemma_hex_of_len(bytes: Seq<u8>)
    ensures
        hex_of(bytes).len() == 2 * bytes.len(),
    decreases bytes.len(),
{
    if bytes.len() > 0 {
        lemma_hex_of_len(bytes.drop_first());
    }
}

fn exec_hex_char(d: u64) -> (c: char)
    requires
        d < 16,
    ensures
        c == hex_char_of(d as int),
{
    if d < 10 {
        exec_digit_char(d)
    } else if d == 10 {
        'a'
    } else if d == 11 {
        'b'
    } else if d == 12 {
        'c'
    } else if d == 13 {
        'd'
    } else if d == 14 {
        'e'
    } else {
        'f'
    }
}

/// Appends the two-digit hex rendering of one byte.
pub fn push_byte_hex(s: &mut String, b: u8)
    ensures
        final(s)@ == old(s)@ + hex_of_byte(b),
{
    let hi = exec_hex_char((b / 16) as u64);
    let lo = exec_hex_char((b % 16) as u64);
    push_char(s, hi);
    push_char(s, lo);
    assert(final(s)@ =~= old(s)@ + hex_of_byte(b));
}

pub open spec fn starts_with_spec(s: Seq<char>, prefix: Seq<char>) -> bool {
    prefix.len() <= s.len() && s.take(prefix.len() as int) == prefix
}

pub fn str_starts_with(s: &str, prefix: &str) -> (r: bool)
    ensures
        r == starts_with_spec(s@, prefix@),
{
    let n = s.unicode_len();
    let p = prefix.unicode_len();
    if p > n {
        return false;
    }
    let mut i: usize = 0;
    while i < p
        invariant
            i <= p,
            p <= n,
            n == s@.len(),
            p == prefix@.len(),
            forall|j: int| 0 <= j < i ==> s@[j] == prefix@[j],
        decreases p - i,
    {
        if s.get_char(i) != prefix.get_char(i) {
            assert(s@.take(p as int)[i as int] != prefix@[i as int]);
            return false;
        }
        i = i + 1;
    }
    assert(s@.take(p as int) =~= prefix@);
    true
}

/// How a string falls apart at a separator: always one more part than
/// there are separator occurrences, parts may be empty.
pub open spec fn split_text(s: Seq<char>, sep: char) -> Seq<Seq<char>>
    decreases s.len(),
{
    if s.len() == 0 {
        seq![Seq::<char>::empty()]
    } else {
        let rest = split_text(s.drop_first(), sep);
        if s[0] == sep {
            seq![Seq::<char>::empty()] + rest
        } else {
            seq![seq![s[0]] + rest[0]] + rest.drop_first()
        }
    }
}

pub proof fn lemma_split_text_len(s: Seq<char>, sep: char)
    ensures
        split_text(s, sep).len() >= 1,
    decreases s.len(),
{
    if s.len() > 0 {
        lemma_split_text_len(s.drop_first(), sep);
    }
}

/// The remaining split parts, given that `cur` holds the already-scanned
/// open part and `rest` is what is still to scan.
spec fn split_open(cur: Seq<char>, rest: Seq<char>, sep: char) -> Seq<Seq<char>> {
    seq![cur + split_text(rest, sep)[0]] + split_text(rest, sep).drop_first()
}

pub fn split_string(s: &str, sep: char) -> (r: Vec<String>)
    ensures
        r.deep_view() == split_text(s@, sep),
        r.len() >= 1,
{
    let n = s.unicode_len();
    let mut parts: Vec<String> = Vec::new();
    let mut cur = String::new();
    let mut i: usize = 0;
    proof {
        lemma_split_text_len(s@, sep);
        assert(s@.skip(0) =~= s@);
        assert(parts.deep_view() + split_open(cur@, s@, sep) =~~= split_text(s@, sep));
    }
    while i < n
        invariant
            i <= n,
            n == s@.len(),
            split_text(s@, sep) =~~= parts.deep_view() + split_open(cur@, s@.skip(i as int), sep),
        decreases n - i,
    {
        let c = s.get_char(i);
        let ghost rest = s@.skip(i as int);
        proof {
            assert(rest.len() > 0);
            assert(rest[0] == s@[i as int]);
            assert(rest.drop_first() =~= s@.skip(i + 1));
            lemma_split_text_len(rest.drop_first(), sep);
        }
        if c == sep {
            let done = cur;
            cur = String::new();
            let ghost old_parts = parts.deep_view();
            parts.push(done);
            proof {
                assert(parts.deep_view() =~~= old_parts.push(done@));
                assert(split_open(done@, rest, sep) =~~= seq![done@] + split_open(
                    Seq::<char>::empty(),
                    rest.drop_first(),
                    sep,
                ));
                assert(split_text(s@, sep) =~~= parts.deep_view() + split_open(
                    cur@,
                    s@.skip(i + 1),
                    sep,
                ));
            }
        } else {
            let ghost old_cur = cur@;
            push_char(&mut cur, c);
            proof {
                assert(split_open(old_cur, rest, sep) =~~= split_open(
                    cur@,
                    rest.drop_first(),
                    sep,
                ));
            }
        }
        i = i + 1;
    }
    proof {
        assert(s@.skip(n as int) =~= Seq::<char>::empty());
        assert(split_open(cur@, Seq::<char>::empty(), sep) =~~= seq![cur@]);
    }
    let ghost old_parts = parts.deep_view();
    parts.push(cur);
    proof {
        assert(parts.deep_view() =~~= old_parts.push(cur@));
        assert(parts.deep_view() =~~= split_text(s@, sep));
    }
    parts
}

pub open spec fn is_digit(c: char) -> bool {
    48 <= c as int && c as int <= 57
}

pub open spec fn digit_val(c: char) -> int {
    c as int - 48
}

pub open spec fn all_digits(s: Seq<char>) -> bool {
    forall|i: int| 0 <= i < s.len() ==> is_digit(#[trigger] s[i])
}

/// The value of a digit string read left to right.
pub open spec fn digits_value(s: Seq<char>) -> int
    decreases s.len(),
{
    if s.len() == 0 {
        0
    } else {
        digits_value(s.drop_last()) * 10 + digit_val(s.last())
    }
}

pub proof fn lemma_digits_value_nonneg(s: Seq<char>)
    requires
        all_digits(s),
    ensures
        digits_value(s) >= 0,
    decreases s.len(),
{
    if s.len() > 0 {
        assert(all_digits(s.drop_last()));
        lemma_digits_value_nonneg(s.drop_last());
    }
}

/// What `str::parse::<i32>` accepts: an optional sign, then at least one
/// digit and nothing else, with the signed value in range.
pub open spec fn parse_i32_spec(s: Seq<char>) -> Option<i32> {
    let has_sign = s.len() > 0 && (s[0] == '-' || s[0] == '+');
    let digits = if has_sign {
        s.drop_first()
    } else {
        s
    };
    let sign: int = if s.len() > 0 && s[0] == '-' {
        -1
    } else {
        1
    };
    if digits.len() == 0 || !all_digits(digits) {
        None
    } else {
        let v = sign * digits_value(digits);
        if i32::MIN <= v <= i32::MAX {
            Some(v as i32)
        } else {
            None
        }
    }
}

pub fn parse_i32(s: &str) -> (r: Option<i32>)
    ensures
        r == parse_i32_spec(s@),
{
    let n = s.unicode_len();
    let mut start: usize = 0;
    let mut negative = false;
    if n > 0 {
        let c0 = s.get_char(0);
        if c0 == '-' {
            negative = true;
            start = 1;
        } else if c0 == '+' {
            start = 1;
        }
    }
    if start >= n {
        return None;
    }
    let ghost digits = s@.subrange(start as int, s@.len() as int);
    proof {
        if start == 1 {
            assert(digits =~= s@.drop_first());
        } else {
            assert(digits =~= s@);
        }
    }
    let mut acc: i64 = 0;
    let mut too_big = false;
    let mut i: usize = start;
    proof {
        assert(s@.subrange(start as int, start as int) =~= Seq::<char>::empty());
    }
    while i < n
        invariant
            start <= i <= n,
            n == s@.len(),
            start < n,
            start <= 1,
            digits == s@.subrange(start as int, n as int),
            (s@.len() > 0 && (s@[0] == '-' || s@[0] == '+')) <==> start == 1,
            all_digits(s@.subrange(start as int, i as int)),
            !too_big ==> 0 <= acc <= 0x8000_0000i64 && acc == digits_value(
                s@.subrange(start as int, i as int),
            ),
            too_big ==> digits_value(s@.subrange(start as int, i as int)) > 0x8000_0000,
        decreases n - i,
    {
        let c = s.get_char(i);
        let cv = c as u32;
        if cv < 48 || cv > 57 {
            proof {
                assert(digits[i - start] == s@[i as int]);
                assert(!is_digit(digits[i - start]));
                assert(!all_digits(digits));
                if start == 1 {
                    assert(s@.drop_first() =~= digits);
                } else {
                    assert(s@ =~= digits);
                }
            }
            return None;
        }
        let d = cv - 48;
        let ghost prev = s@.subrange(start as int, i as int);
        proof {
            assert(prev.push(s@[i as int]) =~= s@.subrange(start as int, i + 1));
            assert(s@.subrange(start as int, i + 1).drop_last() =~= prev);
        }
        if !too_big {
            acc = acc * 10 + (d as i64);
            if acc > 0x8000_0000i64 {
                too_big = true;
            }
        } else {
            proof {
                assert(all_digits(prev));
                lemma_digits_value_nonneg(prev);
                assert(digits_value(s@.subrange(start as int, i + 1)) == digits_value(prev) * 10
                    + digit_val(s@[i as int]));
            }
        }
        i = i + 1;
    }
    let ghost has_sign = s@.len() > 0 && (s@[0] == '-' || s@[0] == '+');
    let ghost sdigits = if has_sign {
        s@.drop_first()
    } else {
        s@
    };
    let ghost sign: int = if s@.len() > 0 && s@[0] == '-' {
        -1
    } else {
        1
    };
    proof {
        assert(s@.subrange(start as int, n as int) =~= digits);
        assert(all_digits(digits));
        assert(digits.len() >= 1);
        lemma_digits_value_nonneg(digits);
        assert(has_sign ==> start == 1);
        assert(!has_sign ==> start == 0);
        if has_sign {
            assert(sdigits =~= digits);
        } else {
            assert(sdigits =~= digits);
        }
        assert(sign == -1 <==> negative);
    }
    if too_big {
        proof {
            assert(digits_value(digits) > 0x8000_0000);
        }
        return None;
    }
    proof {
        assert(acc == digits_value(digits));
    }
    if negative {
        let v = -acc;
        proof {
            assert(s@[0] == '-');
            assert(i32::MIN <= -digits_value(digits) <= i32::MAX);
        }
        Some(v as i32)
    } else {
        proof {
            assert(s@.len() > 0 ==> s@[0] != '-');
        }
        if acc > 0x7fff_ffffi64 {
            proof {
                assert(digits_value(digits) > i32::MAX);
            }
            return None;
        }
        Some(acc as i32)
    }
}

/// The string with every occurrence of one character removed.
pub open spec fn remove_char(s: Seq<char>, c: char) -> Seq<char>
    decreases s.len(),
{
    if s.len() == 0 {
        Seq::empty()
    } else if s[0] == c {
        remove_char(s.drop_first(), c)
    } else {
        seq![s[0]] + remove_char(s.drop_first(), c)
    }
}

pub proof fn lemma_remove_char_push(s: Seq<char>, x: char, c: char)
    ensures
        remove_char(s.push(x), c) == if x == c {
            remove_char(s, c)
        } else {
            remove_char(s, c).push(x)
        },
    decreases s.len(),
{
    let t = s.push(x);
    assert(t.len() == s.len() + 1);
    if s.len() == 0 {
        assert(t[0] == x);
        assert(t.drop_first() =~= Seq::<char>::empty());
        assert(remove_char(t.drop_first(), c) == Seq::<char>::empty());
        if x == c {
            assert(remove_char(t, c) == Seq::<char>::empty());
            assert(remove_char(s, c) == Seq::<char>::empty());
        } else {
            assert(remove_char(t, c) == seq![x] + Seq::<char>::empty());
            assert(remove_char(t, c) =~= remove_char(s, c).push(x));
        }
    } else {
        assert(t[0] == s[0]);
        assert(t.drop_first() =~= s.drop_first().push(x));
        lemma_remove_char_push(s.drop_first(), x, c);
        if s[0] == c {
            assert(remove_char(t, c) == remove_char(s.drop_first().push(x), c));
            assert(remove_char(s, c) == remove_char(s.drop_first(), c));
        } else {
            assert(remove_char(t, c) == seq![s[0]] + remove_char(s.drop_first().push(x), c));
            assert(remove_char(s, c) == seq![s[0]] + remove_char(s.drop_first(), c));
            if x != c {
                assert(remove_char(t, c) =~= remove_char(s, c).push(x));
            } else {
                assert(remove_char(t, c) =~= remove_char(s, c));
            }
        }
    }
}

pub fn remove_char_string(s: &str, c: char) -> (r: String)
    ensures
        r@ == remove_char(s@, c),
{
    let n = s.unicode_len();
    let mut r = String::new();
    let mut i: usize = 0;
    proof {
        assert(s@.take(0) =~= Seq::<char>::empty());
    }
    while i < n
        invariant
            i <= n,
            n == s@.len(),
            r@ == remove_char(s@.take(i as int), c),
        decreases n - i,
    {
        let x = s.get_char(i);
        proof {
            assert(s@.take(i as int).push(s@[i as int]) =~= s@.take(i + 1));
            lemma_remove_char_push(s@.take(i as int), s@[i as int], c);
        }
        if x != c {
            push_char(&mut r, x);
        }
        i = i + 1;
    }
    proof {
        assert(s@.take(n as int) =~= s@);
    }
    r
}

} // verus!
