//! Decimal text: parsing the integers that sysfs files and the
//! configuration's curve points hold, and formatting the integers the
//! daemon writes back, with exact specifications of both directions.

use vstd::prelude::*;
use vstd::string::StrSliceExecFns;
use vstd::string::StringExecFns;

verus! {

/// `c` is one of the ASCII digits `'0'` through `'9'`.
pub open spec fn is_digit(c: char) -> bool {
    48 <= c as u32 <= 57
}

/// The numeric value of an ASCII digit.
pub open spec fn digit_val(c: char) -> int {
    c as u32 - 48
}

/// Every character of `s` is an ASCII digit.
pub open spec fn all_digits(s: Seq<char>) -> bool {
    forall|i: int| 0 <= i < s.len() ==> is_digit(#[trigger] s[i])
}

/// The value of a digit string read as a decimal number.
pub open spec fn digits_val(s: Seq<char>) -> int
    decreases s.len(),
{
    if s.len() == 0 {
        0
    } else {
        digits_val(s.drop_last()) * 10 + digit_val(s.last())
    }
}

/// The ASCII digit for a value between 0 and 9.
pub open spec fn digit_char(d: int) -> char {
    if d == 0 { '0' }
    else if d == 1 { '1' }
    else if d == 2 { '2' }
    else if d == 3 { '3' }
    else if d == 4 { '4' }
    else if d == 5 { '5' }
    else if d == 6 { '6' }
    else if d == 7 { '7' }
    else if d == 8 { '8' }
    else { '9' }
}

/// The canonical decimal representation of a non-negative number: no sign
/// and no leading zero (except for the single digit of zero itself).
pub open spec fn dec_str(n: nat) -> Seq<char>
    decreases n,
{
    if n < 10 {
        seq![digit_char(n as int)]
    } else {
        dec_str(n / 10).push(digit_char((n % 10) as int))
    }
}

/// A digit string is worth at least zero.
pub proof fn lemma_digits_val_nonneg(s: Seq<char>)
    requires
        all_digits(s),
    ensures
        digits_val(s) >= 0,
    decreases s.len(),
{
    if s.len() > 0 {
        assert(all_digits(s.drop_last())) by {
            assert(forall|i: int| 0 <= i < s.len() - 1 ==> s.drop_last()[i] == s[i]);
        }
        lemma_digits_val_nonneg(s.drop_last());
        assert(is_digit(s[s.len() - 1]));
    }
}

/// The ASCII digit of a value reads back as that value.
pub proof fn lemma_digit_char_val(d: int)
    requires
        0 <= d <= 9,
    ensures
        is_digit(digit_char(d)),
        digit_val(digit_char(d)) == d,
{
    assert('0' as u32 == 48);
    assert('1' as u32 == 49);
    assert('2' as u32 == 50);
    assert('3' as u32 == 51);
    assert('4' as u32 == 52);
    assert('5' as u32 == 53);
    assert('6' as u32 == 54);
    assert('7' as u32 == 55);
    assert('8' as u32 == 56);
    assert('9' as u32 == 57);
}

/// The decimal representation of `n` is a non-empty digit string that
/// reads back as `n`.
pub proof fn lemma_dec_str_val(n: nat)
    ensures
        dec_str(n).len() > 0,
        all_digits(dec_str(n)),
        digits_val(dec_str(n)) == n,
    decreases n,
{
    lemma_digit_char_val((n % 10) as int);
    if n < 10 {
        assert(n % 10 == n) by {
            vstd::arithmetic::div_mod::lemma_small_mod(n, 10);
        }
        let s = dec_str(n);
        assert(s =~= seq![digit_char(n as int)]);
        assert(s.drop_last() =~= Seq::<char>::empty());
        assert(digits_val(s.drop_last()) == 0);
        assert(s.last() == digit_char(n as int));
        assert(digits_val(s) == digits_val(s.drop_last()) * 10 + digit_val(s.last()));
        assert(digit_val(digit_char(n as int)) == n);
    } else {
        lemma_dec_str_val(n / 10);
        let s = dec_str(n);
        assert(s =~= dec_str(n / 10).push(digit_char((n % 10) as int)));
        assert(s.drop_last() =~= dec_str(n / 10));
        assert(digits_val(s) == digits_val(dec_str(n / 10)) * 10 + digit_val(s.last()));
        assert(digit_val(digit_char((n % 10) as int)) == n % 10);
        assert((n / 10) * 10 + n % 10 == n) by {
            vstd::arithmetic::div_mod::lemma_fundamental_div_mod(n as int, 10);
        }
        assert forall|i: int| 0 <= i < s.len() implies is_digit(#[trigger] s[i]) by {
            if i < s.len() - 1 {
                assert(s[i] == dec_str(n / 10)[i]);
            }
        }
    }
}

/// One ASCII digit as a string slice.
fn digit_str(d: u8) -> (r: &'static str)
    requires
        d < 10,
    ensures
        r@ =~= seq![digit_char(d as int)],
{
    proof {
        reveal_strlit("0");
        reveal_strlit("1");
        reveal_strlit("2");
        reveal_strlit("3");
        reveal_strlit("4");
        reveal_strlit("5");
        reveal_strlit("6");
        reveal_strlit("7");
        reveal_strlit("8");
        reveal_strlit("9");
    }
    if d == 0 { "0" }
    else if d == 1 { "1" }
    else if d == 2 { "2" }
    else if d == 3 { "3" }
    else if d == 4 { "4" }
    else if d == 5 { "5" }
    else if d == 6 { "6" }
    else if d == 7 { "7" }
    else if d == 8 { "8" }
    else { "9" }
}

/// Formats a number in decimal, matching `dec_str` exactly.
pub fn fmt_u64(n: u64) -> (r: String)
    ensures
        r@ == dec_str(n as nat),
    decreases n,
{
    if n < 10 {
        String::from_str(digit_str(n as u8))
    } else {
        let prefix = fmt_u64(n / 10);
        let r = prefix.concat(digit_str((n % 10) as u8));
        proof {
            assert(r@ =~= dec_str((n / 10) as nat).push(digit_char((n % 10) as int)));
        }
        r
    }
}

/// Reads the digit run `s[from..to]` as a decimal number: `Some` exactly
/// when the run is non-empty, all digits, and its value fits 32 bits.
pub fn parse_digits(s: &str, from: usize, to: usize) -> (r: Option<u64>)
    requires
        from <= to <= s@.len(),
    ensures
        ({
            let part = s@.subrange(from as int, to as int);
            match r {
                Some(v) => part.len() > 0 && all_digits(part) && digits_val(part) == v
                    && v <= u32::MAX,
                None => part.len() == 0 || !all_digits(part)
                    || digits_val(part) > u32::MAX,
            }
        }),
{
    let ghost part = s@.subrange(from as int, to as int);
    if from == to {
        return None;
    }
    let mut i: usize = from;
    let mut acc: u64 = 0;
    let mut over: bool = false;
    while i < to
        invariant
            from <= i <= to <= s@.len(),
            part == s@.subrange(from as int, to as int),
            all_digits(s@.subrange(from as int, i as int)),
            !over ==> acc == digits_val(s@.subrange(from as int, i as int))
                && acc <= u32::MAX,
            over ==> digits_val(s@.subrange(from as int, i as int)) > u32::MAX,
        decreases to - i,
    {
        let ghost seen = s@.subrange(from as int, i as int);
        let c = s.get_char(i);
        let v = c as u32;
        if v < 48 || v > 57 {
            proof {
                assert(part[i - from] == s@[i as int]);
                assert(!is_digit(part[i - from]));
            }
            return None;
        }
        let d = (v - 48) as u64;
        proof {
            let seen2 = s@.subrange(from as int, i + 1);
            assert(seen2.drop_last() =~= seen);
            assert(seen2.last() == s@[i as int]);
            assert(digits_val(seen2) == digits_val(seen) * 10 + d);
            if over {
                lemma_digits_val_nonneg(seen);
                assert(all_digits(seen2)) by {
                    assert(forall|k: int| 0 <= k < seen.len() ==> seen2[k] == seen[k]);
                }
            }
        }
        if !over {
            let next = acc * 10 + d;
            if next > u32::MAX as u64 {
                over = true;
            } else {
                acc = next;
            }
        }
        i = i + 1;
    }
    if over {
        None
    } else {
        proof {
            assert(s@.subrange(from as int, i as int) =~= part);
        }
        Some(acc)
    }
}

/// The body of an integer string: the digits after an optional single
/// leading `'+'` or `'-'`.
pub open spec fn int_str_body(s: Seq<char>) -> Seq<char> {
    if s.len() > 0 && (s[0] == '+' || s[0] == '-') {
        s.drop_first()
    } else {
        s
    }
}

/// The sign an integer string denotes.
pub open spec fn int_str_sign(s: Seq<char>) -> int {
    if s.len() > 0 && s[0] == '-' {
        -1
    } else {
        1
    }
}

/// `s` is an optionally signed, non-empty run of ASCII digits.
pub open spec fn valid_int_str(s: Seq<char>) -> bool {
    int_str_body(s).len() > 0 && all_digits(int_str_body(s))
}

/// The value an integer string denotes.
pub open spec fn int_str_val(s: Seq<char>) -> int {
    int_str_sign(s) * digits_val(int_str_body(s))
}

/// `s` is a non-empty run of ASCII digits after an optional `'+'` (no
/// minus sign: the unsigned form).
pub open spec fn valid_uint_str(s: Seq<char>) -> bool {
    valid_int_str(s) && !(s.len() > 0 && s[0] == '-')
}

/// Parses an optionally signed decimal integer, exactly when the string
/// is well-formed and the value fits an `i32`.
pub fn parse_i32(s: &str) -> (r: Option<i32>)
    ensures
        match r {
            Some(v) => valid_int_str(s@) && i32::MIN <= int_str_val(s@) <= i32::MAX
                && v as int == int_str_val(s@),
            None => !valid_int_str(s@) || int_str_val(s@) < i32::MIN
                || int_str_val(s@) > i32::MAX,
        },
{
    let n = s.unicode_len();
    if n == 0 {
        return None;
    }
    let c0 = s.get_char(0);
    let neg = c0 == '-';
    let start: usize = if c0 == '-' || c0 == '+' { 1 } else { 0 };
    proof {
        if start == 1 {
            assert(s@.subrange(1, n as int) =~= int_str_body(s@));
        } else {
            assert(s@.subrange(0, n as int) =~= int_str_body(s@));
        }
    }
    match parse_digits(s, start, n) {
        None => {
            proof {
                if valid_int_str(s@) {
                    lemma_digits_val_nonneg(int_str_body(s@));
                }
            }
            None
        }
        Some(v) => {
            proof {
                lemma_digits_val_nonneg(int_str_body(s@));
            }
            if neg {
                if v <= 2147483647 {
                    Some(-(v as i32))
                } else if v == 2147483648 {
                    Some(i32::MIN)
                } else {
                    None
                }
            } else {
                if v <= 2147483647 {
                    Some(v as i32)
                } else {
                    None
                }
            }
        }
    }
}

/// Parses an unsigned decimal integer (an optional `'+'` allowed), exactly
/// when the string is well-formed and the value fits a `u8`.
pub fn parse_u8(s: &str) -> (r: Option<u8>)
    ensures
        match r {
            Some(v) => valid_uint_str(s@) && int_str_val(s@) <= u8::MAX
                && v as int == int_str_val(s@),
            None => !valid_uint_str(s@) || int_str_val(s@) > u8::MAX,
        },
{
    let n = s.unicode_len();
    if n == 0 {
        return None;
    }
    let c0 = s.get_char(0);
    if c0 == '-' {
        return None;
    }
    let start: usize = if c0 == '+' { 1 } else { 0 };
    proof {
        if start == 1 {
            assert(s@.subrange(1, n as int) =~= int_str_body(s@));
        } else {
            assert(s@.subrange(0, n as int) =~= int_str_body(s@));
        }
    }
    match parse_digits(s, start, n) {
        None => {
            proof {
                if valid_int_str(s@) {
                    lemma_digits_val_nonneg(int_str_body(s@));
                }
            }
            None
        }
        Some(v) => {
            proof {
                lemma_digits_val_nonneg(int_str_body(s@));
            }
            if v <= 255 {
                Some(v as u8)
            } else {
                None
            }
        }
    }
}

/// The decimal text of an integer: a leading `'-'` for a negative value,
/// then the digits.
pub open spec fn spec_int_str(v: int) -> Seq<char> {
    if v < 0 {
        seq!['-'] + dec_str((-v) as nat)
    } else {
        dec_str(v as nat)
    }
}

/// The decimal text of an integer is a valid integer string denoting
/// that integer; it ends in a digit and holds only digits and a sign.
pub proof fn lemma_spec_int_str(v: int)
    ensures
        spec_int_str(v).len() > 0,
        valid_int_str(spec_int_str(v)),
        int_str_val(spec_int_str(v)) == v,
        is_digit(spec_int_str(v).last()),
        forall|i: int| 0 <= i < spec_int_str(v).len()
            ==> is_digit(#[trigger] spec_int_str(v)[i]) || spec_int_str(v)[i] == '-',
{
    let s = spec_int_str(v);
    if v < 0 {
        lemma_dec_str_val((-v) as nat);
        assert(s[0] == '-');
        assert(s.drop_first() =~= dec_str((-v) as nat));
        assert(int_str_body(s) == dec_str((-v) as nat));
        assert(s.last() == dec_str((-v) as nat).last());
        assert(is_digit(dec_str((-v) as nat)[dec_str((-v) as nat).len() - 1]));
        assert forall|i: int| 0 <= i < s.len() implies is_digit(#[trigger] s[i])
            || s[i] == '-' by {
            if i > 0 {
                assert(s[i] == dec_str((-v) as nat)[i - 1]);
            }
        }
    } else {
        lemma_dec_str_val(v as nat);
        assert(is_digit(s[0]));
        assert('+' as u32 == 43 && '-' as u32 == 45);
        assert(int_str_body(s) == s);
        assert(s.last() == s[s.len() - 1]);
    }
}

/// `find_char` finds `j` when nothing before `j` (at or after `from`)
/// is `c` and either `j` is the end or `c` stands there.
pub proof fn lemma_find_char_first(s: Seq<char>, c: char, from: int, j: int)
    requires
        0 <= from <= j <= s.len(),
        forall|i: int| from <= i < j ==> s[i] != c,
        j == s.len() || s[j] == c,
    ensures
        find_char(s, c, from) == if j < s.len() { j } else { s.len() as int },
    decreases j - from,
{
    if from < j {
        lemma_find_char_first(s, c, from + 1, j);
    }
}

/// Stripping one trailing `c` from a string that otherwise does not end
/// in `c` removes exactly that character.
pub proof fn lemma_strip_trailing_once(x: Seq<char>, c: char)
    requires
        x.len() > 0,
        x.last() != c,
    ensures
        strip_trailing(x.push(c), c) == x,
        strip_trailing(x, c) == x,
{
    assert(strip_trailing(x, c) == x);
    assert(x.push(c).last() == c);
    assert(x.push(c).drop_last() =~= x);
    assert(x.push(c).len() == x.len() + 1 > 0);
    assert(strip_trailing(x.push(c), c) == strip_trailing(x.push(c).drop_last(), c));
    assert(strip_trailing(x.push(c).drop_last(), c) == strip_trailing(x, c));
}

/// Formats a number in decimal followed by a newline, the form the
/// kernel's sysfs files take on write.
pub fn dec_line(n: u64) -> (r: String)
    ensures
        r@ == dec_str(n as nat).push('\n'),
{
    let mut s = fmt_u64(n);
    s.append("\n");
    proof {
        reveal_strlit("\n");
        assert(s@ =~= dec_str(n as nat).push('\n'));
    }
    s
}

/// The index of the first occurrence of `c` in `s` at or after `from`,
/// or the length of `s` if there is none.
pub open spec fn find_char(s: Seq<char>, c: char, from: int) -> int
    decreases s.len() - from,
{
    if from < 0 || from >= s.len() {
        s.len() as int
    } else if s[from] == c {
        from
    } else {
        find_char(s, c, from + 1)
    }
}

/// Finds the first occurrence of `c` at or after `from`, returning the
/// string's length when there is none.
pub fn find_char_at(s: &str, c: char, from: usize) -> (r: usize)
    requires
        from <= s@.len(),
    ensures
        r == find_char(s@, c, from as int),
        from <= r <= s@.len(),
    decreases s@.len() - from,
{
    let n = s.unicode_len();
    if from >= n {
        n
    } else if s.get_char(from) == c {
        from
    } else {
        find_char_at(s, c, from + 1)
    }
}

/// `s` with every trailing occurrence of `c` removed.
pub open spec fn strip_trailing(s: Seq<char>, c: char) -> Seq<char>
    decreases s.len(),
{
    if s.len() > 0 && s.last() == c {
        strip_trailing(s.drop_last(), c)
    } else {
        s
    }
}

/// The end index of `s[from..to]` once trailing occurrences of `c` are
/// dropped: `s[from..r]` is `strip_trailing(s[from..to], c)`.
pub fn strip_trailing_end(s: &str, from: usize, to: usize, c: char) -> (r: usize)
    requires
        from <= to <= s@.len(),
    ensures
        from <= r <= to,
        s@.subrange(from as int, r as int)
            == strip_trailing(s@.subrange(from as int, to as int), c),
    decreases to - from,
{
    if to == from {
        return to;
    }
    let last = s.get_char(to - 1);
    proof {
        let part = s@.subrange(from as int, to as int);
        assert(part.last() == s@[to - 1]);
        if last == c {
            assert(part.drop_last() =~= s@.subrange(from as int, to - 1));
        }
    }
    if last == c {
        strip_trailing_end(s, from, to - 1, c)
    } else {
        to
    }
}

} // verus!
