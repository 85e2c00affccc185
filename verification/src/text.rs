//! Characters, decimal numbers and whitespace: the spec-level vocabulary for
//! every piece of text the library produces or reads, with verified
//! executable counterparts.

use vstd::prelude::*;
use vstd::string::*;

verus! {

/// The whitespace characters recognized when command arguments are split or
/// a mail body is trimmed: the Unicode White_Space set, as std's trimming and
/// splitting use it.
pub open spec fn is_space_char(c: char) -> bool {
    c == '\u{0009}' || c == '\u{000A}' || c == '\u{000B}' || c == '\u{000C}' || c == '\u{000D}'
        || c == '\u{0020}' || c == '\u{0085}' || c == '\u{00A0}' || c == '\u{1680}' || ('\u{2000}'
        <= c && c <= '\u{200A}') || c == '\u{2028}' || c == '\u{2029}' || c == '\u{202F}' || c
        == '\u{205F}' || c == '\u{3000}'
}

pub open spec fn is_digit_char(c: char) -> bool {
    '0' <= c && c <= '9'
}

/// The decimal digit character for a value below ten.
pub open spec fn digit_char(d: nat) -> char {
    if d == 0 {
        '0'
    } else if d == 1 {
        '1'
    } else if d == 2 {
        '2'
    } else if d == 3 {
        '3'
    } else if d == 4 {
        '4'
    } else if d == 5 {
        '5'
    } else if d == 6 {
        '6'
    } else if d == 7 {
        '7'
    } else if d == 8 {
        '8'
    } else {
        '9'
    }
}

/// The numeric value of a decimal digit character.
pub open spec fn digit_val(c: char) -> nat {
    ((c as int) - ('0' as int)) as nat
}

pub fn exec_is_space(c: char) -> (r: bool)
    ensures
        r == is_space_char(c),
{
    c == '\u{0009}' || c == '\u{000A}' || c == '\u{000B}' || c == '\u{000C}' || c == '\u{000D}'
        || c == '\u{0020}' || c == '\u{0085}' || c == '\u{00A0}' || c == '\u{1680}' || ('\u{2000}'
        <= c && c <= '\u{200A}') || c == '\u{2028}' || c == '\u{2029}' || c == '\u{202F}' || c
        == '\u{3000}' || c == '\u{205F}'
}

pub fn exec_is_digit(c: char) -> (r: bool)
    ensures
        r == is_digit_char(c),
{
    '0' <= c && c <= '9'
}

fn exec_digit_char(d: u64) -> (c: char)
    requires
        d < 10,
    ensures
        c == digit_char(d as nat),
{
    if d == 0 {
        '0'
    } else if d == 1 {
        '1'
    } else if d == 2 {
        '2'
    } else if d == 3 {
        '3'
    } else if d == 4 {
        '4'
    } else if d == 5 {
        '5'
    } else if d == 6 {
        '6'
    } else if d == 7 {
        '7'
    } else if d == 8 {
        '8'
    } else {
        '9'
    }
}

proof fn lemma_digit_char_val(d: nat)
    requires
        d < 10,
    ensures
        is_digit_char(digit_char(d)),
        digit_val(digit_char(d)) == d,
{
}

/// Decimal representation of a natural number, most significant digit first.
pub open spec fn dec_digits(n: nat) -> Seq<char>
    decreases n,
{
    if n < 10 {
        seq![digit_char(n)]
    } else {
        dec_digits(n / 10).push(digit_char(n % 10))
    }
}

/// Decimal representation of a signed number: a minus sign for negatives.
pub open spec fn i64_dec_spec(n: int) -> Seq<char> {
    if n < 0 {
        seq!['-'] + dec_digits((-n) as nat)
    } else {
        dec_digits(n as nat)
    }
}

/// Digits of a natural number, as characters in a vector.
pub fn u64_dec_chars(n: u64) -> (v: Vec<char>)
    ensures
        v@ == dec_digits(n as nat),
    decreases n,
{
    if n < 10 {
        let mut v: Vec<char> = Vec::new();
        v.push(exec_digit_char(n));
        assert(v@ =~= dec_digits(n as nat));
        v
    } else {
        let mut v = u64_dec_chars(n / 10);
        v.push(exec_digit_char(n % 10));
        v
    }
}

/// Digits (and sign) of a signed number, as characters in a vector.
pub fn i64_dec_chars(n: i64) -> (v: Vec<char>)
    ensures
        v@ == i64_dec_spec(n as int),
{
    if n >= 0 {
        u64_dec_chars(n as u64)
    } else {
        let mag: u64 = (-(n as i128)) as u64;
        let mut v: Vec<char> = Vec::new();
        v.push('-');
        let mut digits = u64_dec_chars(mag);
        v.append(&mut digits);
        assert(v@ =~= i64_dec_spec(n as int));
        v
    }
}

/// Value of a sequence of decimal digit characters.
pub open spec fn dec_val(s: Seq<char>) -> nat
    decreases s.len(),
{
    if s.len() == 0 {
        0
    } else {
        dec_val(s.drop_last()) * 10 + digit_val(s.last())
    }
}

pub open spec fn all_digits(s: Seq<char>) -> bool {
    forall|i: int| 0 <= i < s.len() ==> is_digit_char(#[trigger] s[i])
}

/// Printing a number and reading the digits back gives the number again.
pub proof fn lemma_dec_digits_val(n: nat)
    ensures
        dec_digits(n).len() >= 1,
        all_digits(dec_digits(n)),
        dec_val(dec_digits(n)) == n,
    decreases n,
{
    if n < 10 {
        lemma_digit_char_val(n);
        let s = dec_digits(n);
        assert(s.drop_last() =~= Seq::<char>::empty());
        assert(dec_val(Seq::<char>::empty()) == 0);
        assert(s.last() == digit_char(n));
        assert(dec_val(s) == dec_val(s.drop_last()) * 10 + digit_val(s.last()));
    } else {
        lemma_dec_digits_val(n / 10);
        lemma_digit_char_val(n % 10);
        let s = dec_digits(n);
        assert(s.drop_last() =~= dec_digits(n / 10));
        assert(s.last() == digit_char(n % 10));
        assert(dec_val(s) == dec_val(s.drop_last()) * 10 + digit_val(s.last()));
        assert(dec_val(s) == (n / 10) * 10 + n % 10);
    }
}

/// Exact meaning of reading a signed 64-bit decimal: an optional sign, then
/// one or more digits, and the value must fit.
pub open spec fn parse_i64_spec(s: Seq<char>) -> Option<i64> {
    if s.len() > 0 && s[0] == '-' {
        let ds = s.subrange(1, s.len() as int);
        if ds.len() > 0 && all_digits(ds) && -(dec_val(ds) as int) >= i64::MIN {
            Some((-(dec_val(ds) as int)) as i64)
        } else {
            None
        }
    } else {
        let ds = if s.len() > 0 && s[0] == '+' {
            s.subrange(1, s.len() as int)
        } else {
            s
        };
        if ds.len() > 0 && all_digits(ds) && dec_val(ds) <= i64::MAX {
            Some(dec_val(ds) as i64)
        } else {
            None
        }
    }
}

/// Growing a digit string never shrinks its value.
proof fn lemma_dec_val_prefix(s: Seq<char>, i: int)
    requires
        0 <= i <= s.len(),
    ensures
        dec_val(s.subrange(0, i)) <= dec_val(s),
    decreases s.len() - i,
{
    if i < s.len() {
        lemma_dec_val_prefix(s, i + 1);
        let p = s.subrange(0, i);
        let q = s.subrange(0, i + 1);
        assert(q.drop_last() =~= p);
        assert(dec_val(q) == dec_val(p) * 10 + digit_val(q.last()));
    } else {
        assert(s.subrange(0, i) =~= s);
    }
}

/// Reads an unsigned decimal digit string, bounded by `max`.
fn parse_digits(v: &Vec<char>, start: usize, max: u64) -> (r: Option<u64>)
    requires
        start <= v@.len(),
    ensures
        ({
            let ds = v@.subrange(start as int, v@.len() as int);
            match r {
                Some(x) => ds.len() > 0 && all_digits(ds) && dec_val(ds) == x && x <= max,
                None => !(ds.len() > 0 && all_digits(ds) && dec_val(ds) <= max),
            }
        }),
{
    let ghost ds = v@.subrange(start as int, v@.len() as int);
    let n: usize = v.len();
    if start >= n {
        return None;
    }
    let mut acc: u64 = 0;
    let mut i: usize = start;
    while i < n
        invariant
            start <= i <= n,
            n == v@.len(),
            ds == v@.subrange(start as int, n as int),
            all_digits(ds.subrange(0, i - start)),
            acc == dec_val(ds.subrange(0, i - start)),
            acc <= max,
        decreases n - i,
    {
        let c = v[i];
        proof {
            assert(ds[i - start] == v@[i as int]);
        }
        if !exec_is_digit(c) {
            proof {
                assert(!is_digit_char(ds[i - start]));
            }
            return None;
        }
        let d: u64 = (c as u32 as u64) - 48;
        proof {
            assert(digit_val(ds[i - start]) == d);
        }
        // would acc * 10 + d exceed max?
        if acc > max / 10 || (acc == max / 10 && d > max % 10) {
            proof {
                let pre = ds.subrange(0, i - start + 1);
                assert(pre.drop_last() =~= ds.subrange(0, i - start));
                assert(dec_val(pre) == acc * 10 + d);
                assert(dec_val(pre) > max) by (nonlinear_arith)
                    requires
                        dec_val(pre) == acc * 10 + d,
                        acc > max / 10 || (acc == max / 10 && d > max % 10),
                        acc >= 0,
                        d >= 0,
                        max >= 0,
                ;
                lemma_dec_val_prefix(ds, i - start + 1);
            }
            return None;
        }
        proof {
            assert(acc * 10 + d <= max) by (nonlinear_arith)
                requires
                    acc <= max / 10,
                    acc == max / 10 ==> d <= max % 10,
                    0 <= d < 10,
                    acc >= 0,
                    max >= 0,
            ;
            let pre = ds.subrange(0, i - start + 1);
            assert(pre.drop_last() =~= ds.subrange(0, i - start));
            assert(pre.last() == ds[i - start]);
        }
        acc = acc * 10 + d;
        i = i + 1;
    }
    proof {
        assert(ds.subrange(0, n - start) =~= ds);
    }
    Some(acc)
}

/// Reads a signed 64-bit decimal from characters, exactly as
/// `parse_i64_spec` says.
pub fn parse_i64_chars(v: &Vec<char>) -> (r: Option<i64>)
    ensures
        r == parse_i64_spec(v@),
{
    if v.len() == 0 {
        return None;
    }
    let c0 = v[0];
    if c0 == '-' {
        let mag = parse_digits(v, 1, 9223372036854775808u64);
        proof {
            assert(v@.subrange(1, v@.len() as int).len() == v@.len() - 1);
        }
        match mag {
            Some(m) => Some(((-(m as i128)) as i64)),
            None => None,
        }
    } else if c0 == '+' {
        match parse_digits(v, 1, 9223372036854775807u64) {
            Some(m) => Some(m as i64),
            None => None,
        }
    } else {
        match parse_digits(v, 0, 9223372036854775807u64) {
            Some(m) => {
                proof {
                    assert(v@.subrange(0, v@.len() as int) =~= v@);
                }
                Some(m as i64)
            },
            None => {
                proof {
                    assert(v@.subrange(0, v@.len() as int) =~= v@);
                }
                None
            },
        }
    }
}

/// Printing a signed number and parsing it back returns the same number.
pub proof fn lemma_i64_round_trip(n: i64)
    ensures
        parse_i64_spec(i64_dec_spec(n as int)) == Some(n),
{
    if n >= 0 {
        lemma_dec_digits_val(n as nat);
        let s = dec_digits(n as nat);
        lemma_digit_char_not_sign(s);
    } else {
        lemma_dec_digits_val((-(n as int)) as nat);
        let s = i64_dec_spec(n as int);
        assert(s[0] == '-');
        assert(s.subrange(1, s.len() as int) =~= dec_digits((-(n as int)) as nat));
    }
}

/// A digit string starts with neither sign character.
proof fn lemma_digit_char_not_sign(s: Seq<char>)
    requires
        s.len() > 0,
        all_digits(s),
    ensures
        s[0] != '-',
        s[0] != '+',
{
    assert(is_digit_char(s[0]));
}

/// Distinct signed numbers print as distinct strings.
pub proof fn lemma_i64_dec_injective(a: i64, b: i64)
    requires
        i64_dec_spec(a as int) == i64_dec_spec(b as int),
    ensures
        a == b,
{
    lemma_i64_round_trip(a);
    lemma_i64_round_trip(b);
}

/// A decimal representation never contains a newline.
pub proof fn lemma_dec_digits_no_newline(n: nat)
    ensures
        forall|i: int|
            0 <= i < dec_digits(n).len() ==> #[trigger] dec_digits(n)[i] != '\n',
    decreases n,
{
    lemma_dec_digits_val(n);
    assert forall|i: int| 0 <= i < dec_digits(n).len() implies #[trigger] dec_digits(n)[i]
        != '\n' by {
        assert(is_digit_char(dec_digits(n)[i]));
    }
}

/// The characters of a string, in order.
pub fn string_to_chars(s: &str) -> (v: Vec<char>)
    ensures
        v@ == s@,
{
    let n: usize = s.unicode_len();
    let mut v: Vec<char> = Vec::new();
    let mut i: usize = 0;
    while i < n
        invariant
            0 <= i <= n,
            n == s@.len(),
            v@ == s@.subrange(0, i as int),
        decreases n - i,
    {
        let c = s.get_char(i);
        v.push(c);
        proof {
            assert(v@ =~= s@.subrange(0, i + 1));
        }
        i = i + 1;
    }
    proof {
        assert(v@ =~= s@);
    }
    v
}

/// Relies on `String::push` of std: it appends exactly the one character.
#[verifier::external_body]
pub(crate) fn push_char(s: &mut String, c: char)
    ensures
        final(s)@ == old(s)@.push(c),
{
    s.push(c);
}

/// A string holding exactly the given characters, in order.
pub fn chars_to_string(v: &Vec<char>) -> (s: String)
    ensures
        s@ == v@,
{
    let mut s = String::new();
    let n: usize = v.len();
    let mut i: usize = 0;
    while i < n
        invariant
            0 <= i <= n,
            n == v@.len(),
            s@ == v@.subrange(0, i as int),
        decreases n - i,
    {
        push_char(&mut s, v[i]);
        proof {
            assert(s@ =~= v@.subrange(0, i + 1));
        }
        i = i + 1;
    }
    proof {
        assert(v@.subrange(0, n as int) =~= v@);
    }
    s
}

/// What remains of a text after its leading whitespace.
pub open spec fn skip_spaces(s: Seq<char>) -> Seq<char>
    decreases s.len(),
{
    if s.len() == 0 {
        s
    } else if is_space_char(s[0]) {
        skip_spaces(s.drop_first())
    } else {
        s
    }
}

/// The longest whitespace-free prefix of a text.
pub open spec fn take_until_space(s: Seq<char>) -> Seq<char>
    decreases s.len(),
{
    if s.len() == 0 {
        s
    } else if is_space_char(s[0]) {
        Seq::<char>::empty()
    } else {
        seq![s[0]] + take_until_space(s.drop_first())
    }
}

/// The first whitespace-separated word of a text; empty if there is none.
pub open spec fn first_token(s: Seq<char>) -> Seq<char> {
    take_until_space(skip_spaces(s))
}

/// What remains of a text after its trailing whitespace.
pub open spec fn skip_spaces_end(s: Seq<char>) -> Seq<char>
    decreases s.len(),
{
    if s.len() == 0 {
        s
    } else if is_space_char(s.last()) {
        skip_spaces_end(s.drop_last())
    } else {
        s
    }
}

/// A text without its leading and trailing whitespace.
pub open spec fn trim_spec(s: Seq<char>) -> Seq<char> {
    skip_spaces_end(skip_spaces(s))
}

/// Index of the first non-whitespace character, or the length.
fn scan_spaces(v: &Vec<char>) -> (i: usize)
    ensures
        i <= v@.len(),
        skip_spaces(v@) == v@.subrange(i as int, v@.len() as int),
        forall|j: int| 0 <= j < i ==> is_space_char(#[trigger] v@[j]),
        i < v@.len() ==> !is_space_char(v@[i as int]),
{
    let n: usize = v.len();
    let mut i: usize = 0;
    proof {
        assert(v@.subrange(0, n as int) =~= v@);
    }
    while i < n && exec_is_space(v[i])
        invariant
            0 <= i <= n,
            n == v@.len(),
            skip_spaces(v@) == skip_spaces(v@.subrange(i as int, n as int)),
            forall|j: int| 0 <= j < i ==> is_space_char(#[trigger] v@[j]),
        decreases n - i,
    {
        proof {
            let suf = v@.subrange(i as int, n as int);
            assert(suf[0] == v@[i as int]);
            assert(suf.drop_first() =~= v@.subrange(i + 1, n as int));
        }
        i = i + 1;
    }
    proof {
        let suf = v@.subrange(i as int, n as int);
        if i == n {
            assert(suf.len() == 0);
        } else {
            assert(suf[0] == v@[i as int]);
        }
    }
    i
}

/// The first whitespace-separated word of the characters.
pub fn first_token_chars(v: &Vec<char>) -> (r: Vec<char>)
    ensures
        r@ == first_token(v@),
{
    let n: usize = v.len();
    let start: usize = scan_spaces(v);
    let mut r: Vec<char> = Vec::new();
    let mut j: usize = start;
    while j < n && !exec_is_space(v[j])
        invariant
            start <= j <= n,
            n == v@.len(),
            skip_spaces(v@) == v@.subrange(start as int, n as int),
            first_token(v@) == r@ + take_until_space(v@.subrange(j as int, n as int)),
        decreases n - j,
    {
        proof {
            let suf = v@.subrange(j as int, n as int);
            assert(suf[0] == v@[j as int]);
            assert(suf.drop_first() =~= v@.subrange(j + 1, n as int));
            assert(r@.push(v@[j as int]) =~= r@ + seq![v@[j as int]]);
            assert(seq![suf[0]] + take_until_space(suf.drop_first()) =~= seq![suf[0]]
                + take_until_space(suf.drop_first()));
        }
        r.push(v[j]);
        proof {
            assert(r@ + take_until_space(v@.subrange(j + 1, n as int)) =~= first_token(v@));
        }
        j = j + 1;
    }
    proof {
        let suf = v@.subrange(j as int, n as int);
        if j == n {
            assert(suf.len() == 0);
        } else {
            assert(suf[0] == v@[j as int]);
        }
        assert(r@ + take_until_space(suf) =~= r@);
    }
    r
}

/// The characters without leading and trailing whitespace.
pub fn trim_chars(v: &Vec<char>) -> (r: Vec<char>)
    ensures
        r@ == trim_spec(v@),
{
    let n: usize = v.len();
    let start: usize = scan_spaces(v);
    let mut e: usize = n;
    while e > start && exec_is_space(v[e - 1])
        invariant
            start <= e <= n,
            n == v@.len(),
            skip_spaces(v@) == v@.subrange(start as int, n as int),
            skip_spaces_end(v@.subrange(start as int, n as int)) == skip_spaces_end(
                v@.subrange(start as int, e as int),
            ),
        decreases e,
    {
        proof {
            let cur = v@.subrange(start as int, e as int);
            assert(cur.last() == v@[e - 1]);
            assert(cur.drop_last() =~= v@.subrange(start as int, e - 1));
        }
        e = e - 1;
    }
    proof {
        let cur = v@.subrange(start as int, e as int);
        if e == start {
            assert(cur.len() == 0);
        } else {
            assert(cur.last() == v@[e - 1]);
        }
        assert(skip_spaces_end(cur) == cur);
    }
    let mut r: Vec<char> = Vec::new();
    let mut j: usize = start;
    while j < e
        invariant
            start <= j <= e <= n,
            n == v@.len(),
            r@ == v@.subrange(start as int, j as int),
        decreases e - j,
    {
        r.push(v[j]);
        proof {
            assert(r@ =~= v@.subrange(start as int, j + 1));
        }
        j = j + 1;
    }
    proof {
        assert(r@ == v@.subrange(start as int, e as int));
        assert(trim_spec(v@) == skip_spaces_end(v@.subrange(start as int, n as int)));
    }
    r
}

/// Whether two texts hold the same characters.
pub fn str_eq_chars(a: &str, b: &str) -> (r: bool)
    ensures
        r == (a@ == b@),
{
    let na: usize = a.unicode_len();
    let nb: usize = b.unicode_len();
    if na != nb {
        proof {
            assert(a@.len() != b@.len());
        }
        return false;
    }
    let mut i: usize = 0;
    while i < na
        invariant
            0 <= i <= na,
            na == a@.len(),
            na == b@.len(),
            forall|j: int| 0 <= j < i ==> a@[j] == b@[j],
        decreases na - i,
    {
        if a.get_char(i) != b.get_char(i) {
            return false;
        }
        i = i + 1;
    }
    proof {
        assert(a@ =~= b@);
    }
    true
}

/// The characters between two positions.
pub fn copy_range(v: &Vec<char>, a: usize, b: usize) -> (r: Vec<char>)
    requires
        a <= b <= v@.len(),
    ensures
        r@ == v@.subrange(a as int, b as int),
{
    let mut r: Vec<char> = Vec::new();
    let mut i: usize = a;
    while i < b
        invariant
            a <= i <= b <= v@.len(),
            r@ == v@.subrange(a as int, i as int),
        decreases b - i,
    {
        r.push(v[i]);
        proof {
            assert(r@ =~= v@.subrange(a as int, i + 1));
        }
        i = i + 1;
    }
    r
}

/// The string form of a signed number.
pub fn i64_to_string(n: i64) -> (s: String)
    ensures
        s@ == i64_dec_spec(n as int),
{
    let v = i64_dec_chars(n);
    chars_to_string(&v)
}

} // verus!
