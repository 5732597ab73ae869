//! Text building blocks shared by the whole compiler: decimal rendering of
//! integers, conversion between strings and character vectors, and string
//! concatenation, each with its meaning stated over `Seq<char>`.
use vstd::prelude::*;
use vstd::string::*;

verus! {

/// The character that writes the decimal digit `d` (for `0 <= d < 10`).
pub open spec fn digit_char(d: int) -> char {
    if d == 0 {
        '0'
    } else if d == 1 {
        '1'
    } else if d == 2 {
        '2'
    } else if d == 3 {
        '3'
    } else if d == 4 {
        '4'
    } else if d == 5 {
        '5'
    } else if d == 6 {
        '6'
    } else if d == 7 {
        '7'
    } else if d == 8 {
        '8'
    } else {
        '9'
    }
}

/// Whether `c` is one of the ten ASCII decimal digits.
pub open spec fn is_digit_char(c: char) -> bool {
    '0' <= c && c <= '9'
}

/// The value of the ASCII decimal digit `c`.
pub open spec fn digit_value(c: char) -> int {
    (c as int) - ('0' as int)
}

/// The shortest decimal writing of the natural number `n`, as `format!("{}", n)` renders it.
pub open spec fn dec(n: nat) -> Seq<char>
    decreases n,
{
    if n < 10 {
        seq![digit_char(n as int)]
    } else {
        dec(n / 10).push(digit_char((n % 10) as int))
    }
}

/// The decimal writing of the integer `i`, with a leading `-` when it is negative.
pub open spec fn dec_int(i: int) -> Seq<char> {
    if i < 0 {
        seq!['-'] + dec((-i) as nat)
    } else {
        dec(i as nat)
    }
}

/// The number that a non-empty run of decimal digits denotes.
pub open spec fn digits_value(s: Seq<char>) -> nat
    decreases s.len(),
{
    if s.len() == 0 {
        0
    } else {
        (digits_value(s.drop_last()) * 10 + digit_value(s.last())) as nat
    }
}

/// Whether `s` is a non-empty run of decimal digits.
pub open spec fn all_digits(s: Seq<char>) -> bool {
    &&& s.len() > 0
    &&& forall|i: int| 0 <= i < s.len() ==> is_digit_char(#[trigger] s[i])
}

proof fn lemma_digit_char(d: int)
    requires
        0 <= d < 10,
    ensures
        is_digit_char(digit_char(d)),
        digit_value(digit_char(d)) == d,
{
}

/// A decimal writing is never empty, is made of digits, and reads back as the number written.
pub proof fn lemma_dec_digits(n: nat)
    ensures
        all_digits(dec(n)),
        digits_value(dec(n)) == n,
        n < 10 ==> dec(n).len() == 1,
        n >= 10 ==> dec(n).len() >= 2,
        dec(n).len() > 1 ==> dec(n)[0] != '0',
    decreases n,
{
    if n < 10 {
        lemma_digit_char(n as int);
        assert(dec(n).drop_last() =~= Seq::<char>::empty());
        assert(digits_value(dec(n).drop_last()) == 0);
        assert(digits_value(dec(n)) == n);
    } else {
        lemma_dec_digits(n / 10);
        lemma_digit_char((n % 10) as int);
        let s = dec(n);
        assert(s.drop_last() =~= dec(n / 10));
        assert forall|i: int| 0 <= i < s.len() implies is_digit_char(#[trigger] s[i]) by {
            if i < s.len() - 1 {
                assert(s[i] == dec(n / 10)[i]);
            }
        }
        assert(s[0] == dec(n / 10)[0]);
        assert(s.last() == digit_char((n % 10) as int));
        assert((n / 10) * 10 + n % 10 == n) by (nonlinear_arith);
        assert(digits_value(s) == digits_value(dec(n / 10)) * 10 + digit_value(s.last()));
    }
}

/// Two numbers with the same decimal writing are equal.
pub proof fn lemma_dec_injective(a: nat, b: nat)
    requires
        dec(a) == dec(b),
    ensures
        a == b,
{
    lemma_dec_digits(a);
    lemma_dec_digits(b);
}

/// The decimal writing of `n`, built digit by digit.
pub fn dec_chars(n: u128) -> (res: Vec<char>)
    ensures
        res@ == dec(n as nat),
    decreases n,
{
    let d = n % 10;
    let c = if d == 0 {
        '0'
    } else if d == 1 {
        '1'
    } else if d == 2 {
        '2'
    } else if d == 3 {
        '3'
    } else if d == 4 {
        '4'
    } else if d == 5 {
        '5'
    } else if d == 6 {
        '6'
    } else if d == 7 {
        '7'
    } else if d == 8 {
        '8'
    } else {
        '9'
    };
    if n < 10 {
        let mut v = Vec::new();
        v.push(c);
        v
    } else {
        let mut v = dec_chars(n / 10);
        v.push(c);
        v
    }
}

/// The string made of the characters of `v`, in order.
#[verifier::external_body]
pub fn string_from_chars(v: &Vec<char>) -> (res: String)
    ensures
        res@ == v@,
{
    v.iter().collect()
}

/// The characters of `s`, in order.
#[verifier::external_body]
pub fn chars_of(s: &str) -> (res: Vec<char>)
    ensures
        res@ == s@,
{
    s.chars().collect()
}

/// The decimal writing of an unsigned size.
pub fn usize_to_string(n: usize) -> (res: String)
    ensures
        res@ == dec(n as nat),
{
    let v = dec_chars(n as u128);
    string_from_chars(&v)
}

/// The decimal writing of a signed 64-bit integer, as `format!("{}", i)` gives it.
pub fn i64_to_string(i: i64) -> (res: String)
    ensures
        res@ == dec_int(i as int),
{
    if i < 0 {
        let m: i128 = 0i128 - (i as i128);
        let digits = dec_chars(m as u128);
        let mut v = Vec::new();
        v.push('-');
        let mut k: usize = 0;
        while k < digits.len()
            invariant
                0 <= k <= digits.len(),
                v@ == seq!['-'] + digits@.subrange(0, k as int),
            decreases digits.len() - k,
        {
            v.push(digits[k]);
            k = k + 1;
            assert(v@ =~= seq!['-'] + digits@.subrange(0, k as int));
        }
        assert(digits@.subrange(0, digits@.len() as int) =~= digits@);
        string_from_chars(&v)
    } else {
        let v = dec_chars(i as u128);
        string_from_chars(&v)
    }
}

/// `a` followed by `b`.
pub fn concat(a: &str, b: &str) -> (res: String)
    ensures
        res@ == a@ + b@,
{
    let mut r = String::from_str(a);
    r.append(b);
    r
}

/// `a`, `b` and `c`, one after the other.
pub fn concat3(a: &str, b: &str, c: &str) -> (res: String)
    ensures
        res@ == a@ + b@ + c@,
{
    let mut r = String::from_str(a);
    r.append(b);
    r.append(c);
    r
}

/// Calls `==` on two string slices: whether they hold the same characters.
#[verifier::external_body]
pub fn str_eq(a: &str, b: &str) -> (res: bool)
    ensures
        res == (a@ == b@),
{
    a == b
}

/// A copy of `s`.
pub fn copy_string(s: &String) -> (res: String)
    ensures
        res@ == s@,
{
    s.clone()
}

/// A run of digits is worth at least as much as any of its prefixes.
pub proof fn lemma_digits_value_prefix(s: Seq<char>, k: int)
    requires
        0 <= k <= s.len(),
        forall|i: int| 0 <= i < s.len() ==> is_digit_char(#[trigger] s[i]),
    ensures
        digits_value(s.take(k)) <= digits_value(s),
    decreases s.len(),
{
    if k < s.len() {
        assert(s.drop_last().take(k) =~= s.take(k));
        lemma_digits_value_prefix(s.drop_last(), k);
        assert(is_digit_char(s.last()));
    } else {
        assert(s.take(k) =~= s);
    }
}

/// What `i64::from_str` makes of `s`: an optional sign, then a non-empty run of decimal
/// digits whose signed value fits in an `i64`.
pub open spec fn parsed_i64(s: Seq<char>) -> Option<i64> {
    let neg = s.len() > 0 && s[0] == '-';
    let digits = if s.len() > 0 && (s[0] == '+' || s[0] == '-') {
        s.drop_first()
    } else {
        s
    };
    if !all_digits(digits) {
        None
    } else if neg {
        if digits_value(digits) <= 0x8000_0000_0000_0000 {
            Some((0 - digits_value(digits)) as i64)
        } else {
            None
        }
    } else if digits_value(digits) <= i64::MAX {
        Some(digits_value(digits) as i64)
    } else {
        None
    }
}

/// Reads a signed 64-bit integer from a string, as `i64::from_str` does.
pub fn parse_i64(text: &str) -> (res: Option<i64>)
    ensures
        res == parsed_i64(text@),
{
    let s = chars_of(text);
    let mut i: usize = 0;
    let mut neg = false;
    if s.len() > 0 && (s[0] == '+' || s[0] == '-') {
        neg = s[0] == '-';
        i = 1;
    }
    let ghost digits = s@.skip(i as int);
    assert(digits == if s@.len() > 0 && (s@[0] == '+' || s@[0] == '-') {
        s@.drop_first()
    } else {
        s@
    });
    if i == s.len() {
        return None;
    }
    let mut v: u64 = 0;
    let mut j = i;
    while j < s.len()
        invariant
            i <= j <= s@.len(),
            i < s@.len(),
            s@ == text@,
            digits == s@.skip(i as int),
            digits == (if s@.len() > 0 && (s@[0] == '+' || s@[0] == '-') {
                s@.drop_first()
            } else {
                s@
            }),
            neg == (s@.len() > 0 && s@[0] == '-'),
            i == (if s@.len() > 0 && (s@[0] == '+' || s@[0] == '-') {
                1int
            } else {
                0int
            }),
            forall|k: int| i <= k < j ==> is_digit_char(#[trigger] s@[k]),
            v as nat == digits_value(s@.subrange(i as int, j as int)),
        decreases s@.len() - j,
    {
        let c = s[j];
        if !('0' <= c && c <= '9') {
            assert(digits[j - i] == c);
            return None;
        }
        let d = (c as u32 - '0' as u32) as u64;
        assert(s@.subrange(i as int, j + 1).drop_last() =~= s@.subrange(i as int, j as int));
        assert(digits_value(s@.subrange(i as int, j + 1)) == v * 10 + d);
        let next = match v.checked_mul(10) {
            Some(m) => m.checked_add(d),
            None => None,
        };
        match next {
            Some(w) => {
                v = w;
            },
            None => {
                proof {
                    assert forall|k: int| 0 <= k < j + 1 - i implies is_digit_char(
                        #[trigger] s@.subrange(i as int, j + 1)[k],
                    ) by {
                        assert(s@.subrange(i as int, j + 1)[k] == s@[i + k]);
                    }
                    assert(v * 10 + d > u64::MAX);
                    if all_digits(digits) {
                        assert(s@.subrange(i as int, j + 1) =~= digits.take(j + 1 - i));
                        lemma_digits_value_prefix(digits, j + 1 - i);
                        assert(digits_value(digits) > 0x8000_0000_0000_0000);
                    }
                }
                return None;
            },
        }
        j = j + 1;
    }
    assert(s@.subrange(i as int, s@.len() as int) =~= digits);
    if neg {
        if v <= 0x8000_0000_0000_0000u64 {
            if v == 0x8000_0000_0000_0000u64 {
                Some(i64::MIN)
            } else {
                Some(0i64 - (v as i64))
            }
        } else {
            None
        }
    } else if v <= 0x7fff_ffff_ffff_ffffu64 {
        Some(v as i64)
    } else {
        None
    }
}

/// What `format!("{:?}", s)` writes for the string `s`: the string between double quotes,
/// with the characters that need it escaped.
pub uninterp spec fn debug_text(s: Seq<char>) -> Seq<char>;

/// Calls `format!("{:?}", s)` on a string slice. Only its name for the result is claimed:
/// the result depends on `s` alone.
#[verifier::external_body]
pub fn debug_quoted(s: &str) -> (res: String)
    ensures
        res@ == debug_text(s@),
{
    format!("{:?}", s)
}

/// The index of the first `\n` of `s` at or after `i`, or the length of `s` if there is none.
pub open spec fn line_end(s: Seq<char>, i: int) -> int
    decreases s.len() - i,
{
    if i >= s.len() {
        s.len() as int
    } else if s[i] == '\n' {
        i
    } else {
        line_end(s, i + 1)
    }
}

/// The lines of `s` from index `i` on, as `str::lines` gives them: split at each `\n`,
/// a `\r` just before the `\n` dropped, and no empty line after a final `\n`.
pub open spec fn lines_from(s: Seq<char>, i: int) -> Seq<Seq<char>>
    decreases s.len() - i,
{
    if i < 0 || i >= s.len() {
        Seq::empty()
    } else {
        let e = line_end(s, i);
        proof {
            lemma_line_end(s, i);
        }
        let raw = s.subrange(i, e);
        let line = if e < s.len() && raw.len() > 0 && raw.last() == '\r' {
            raw.drop_last()
        } else {
            raw
        };
        if e >= s.len() {
            seq![line]
        } else {
            seq![line] + lines_from(s, e + 1)
        }
    }
}

/// The lines of `s`, as `str::lines` gives them.
pub open spec fn lines_of(s: Seq<char>) -> Seq<Seq<char>> {
    lines_from(s, 0)
}

/// The end of the line that starts at `i` lies between `i` and the end of `s`, at a `\n` if
/// before the end, with no `\n` in between.
pub proof fn lemma_line_end(s: Seq<char>, i: int)
    requires
        0 <= i <= s.len(),
    ensures
        i <= line_end(s, i) <= s.len(),
        line_end(s, i) < s.len() ==> s[line_end(s, i)] == '\n',
        forall|j: int| i <= j < line_end(s, i) ==> s[j] != '\n',
    decreases s.len() - i,
{
    if i < s.len() && s[i] != '\n' {
        lemma_line_end(s, i + 1);
    }
}

/// The lines of a string, as `str::lines` gives them.
pub fn split_lines(text: &str) -> (res: Vec<String>)
    ensures
        res@.map_values(|l: String| l@) == lines_of(text@),
{
    let s = chars_of(text);
    let mut out: Vec<String> = Vec::new();
    let mut i: usize = 0;
    while i < s.len()
        invariant
            0 <= i <= s@.len(),
            s@ == text@,
            lines_of(s@) == out@.map_values(|l: String| l@) + lines_from(s@, i as int),
        decreases s.len() - i,
    {
        proof {
            lemma_line_end(s@, i as int);
        }
        let mut e = i;
        while e < s.len() && s[e] != '\n'
            invariant
                i <= e <= s@.len(),
                line_end(s@, i as int) == line_end(s@, e as int),
            decreases s.len() - e,
        {
            e = e + 1;
        }
        let mut end = e;
        if e < s.len() && end > i && s[end - 1] == '\r' {
            end = end - 1;
        }
        let mut line: Vec<char> = Vec::new();
        let mut k = i;
        while k < end
            invariant
                i <= k <= end,
                end <= s@.len(),
                line@ == s@.subrange(i as int, k as int),
            decreases end - k,
        {
            line.push(s[k]);
            k = k + 1;
            assert(line@ =~= s@.subrange(i as int, k as int));
        }
        let ls = string_from_chars(&line);
        let ghost before = out@;
        out.push(ls);
        proof {
            let raw = s@.subrange(i as int, e as int);
            if e < s@.len() && raw.len() > 0 && raw.last() == '\r' {
                assert(s@.subrange(i as int, end as int) =~= raw.drop_last());
            } else {
                assert(s@.subrange(i as int, end as int) =~= raw);
            }
            assert(out@.map_values(|l: String| l@) =~= before.map_values(|l: String| l@).push(ls@));
        }
        i = if e < s.len() {
            e + 1
        } else {
            e
        };
        proof {
            if e >= s@.len() {
                assert(lines_from(s@, i as int).len() == 0);
            }
        }
    }
    out
}

/// `n` spaces.
pub open spec fn spaces(n: nat) -> Seq<char> {
    Seq::new(n, |i: int| ' ')
}

/// A string of `n` spaces.
pub fn spaces_string(n: usize) -> (res: String)
    ensures
        res@ == spaces(n as nat),
{
    let mut v: Vec<char> = Vec::new();
    let mut i: usize = 0;
    while i < n
        invariant
            0 <= i <= n,
            v@ == spaces(i as nat),
        decreases n - i,
    {
        v.push(' ');
        i = i + 1;
        assert(v@ =~= spaces(i as nat));
    }
    string_from_chars(&v)
}

/// Whether `names` holds `n`.
pub fn contains_string(names: &Vec<String>, n: &str) -> (res: bool)
    ensures
        res == exists|j: int| 0 <= j < names@.len() && #[trigger] names@[j]@ == n@,
{
    let mut i: usize = 0;
    while i < names.len()
        invariant
            0 <= i <= names@.len(),
            forall|j: int| 0 <= j < i ==> #[trigger] names@[j]@ != n@,
        decreases names.len() - i,
    {
        if str_eq(names[i].as_str(), n) {
            return true;
        }
        i = i + 1;
    }
    false
}

} // verus!
