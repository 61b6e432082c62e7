//! Character-level text helpers: decimal numbers, whitespace trimming and
//! the conversions between `String` and sequences of characters.

use vstd::prelude::*;

verus! {

/// The character of a decimal digit `d < 10`.
pub open spec fn digit_char(d: nat) -> char {
    ((48 + d) as u8) as char
}

/// The decimal representation of `n`, without sign or leading zeros.
pub open spec fn decimal(n: nat) -> Seq<char>
    decreases n,
{
    if n < 10 {
        seq![digit_char(n)]
    } else {
        decimal(n / 10).push(digit_char(n % 10))
    }
}

fn digit_to_char(d: u128) -> (c: char)
    requires
        d < 10,
    ensures
        c == digit_char(d as nat),
{
    ((d as u8) + 48u8) as char
}

/// Decimal digits of `n`.
pub fn u128_to_chars(n: u128) -> (v: Vec<char>)
    ensures
        v@ == decimal(n as nat),
{
    let mut m = n;
    let mut v: Vec<char> = Vec::new();
    while m >= 10
        invariant
            decimal(n as nat) == decimal(m as nat) + v@,
        decreases m,
    {
        let d = m % 10;
        let c = digit_to_char(d);
        proof {
            assert(decimal(m as nat) == decimal((m / 10) as nat).push(digit_char((m % 10) as nat)));
            assert(decimal(m as nat) + v@ =~= decimal((m / 10) as nat) + seq![c].add(v@));
        }
        v.insert(0, c);
        m = m / 10;
    }
    let c = digit_to_char(m);
    v.insert(0, c);
    proof {
        assert(decimal(m as nat) == seq![c]);
    }
    v
}

/// The character of a hexadecimal digit `d < 16`, in lower case.
pub open spec fn hex_digit(d: nat) -> char {
    if d < 10 {
        ((48 + d) as u8) as char
    } else {
        ((87 + d) as u8) as char
    }
}

/// The lower-case hexadecimal representation of `n`, without prefix or
/// leading zeros (as `{:x}` formats it).
pub open spec fn hex(n: nat) -> Seq<char>
    decreases n,
{
    if n < 16 {
        seq![hex_digit(n)]
    } else {
        hex(n / 16).push(hex_digit(n % 16))
    }
}

fn hex_to_char(d: u128) -> (c: char)
    requires
        d < 16,
    ensures
        c == hex_digit(d as nat),
{
    if d < 10 {
        ((d as u8) + 48u8) as char
    } else {
        ((d as u8) + 87u8) as char
    }
}

/// Lower-case hexadecimal text of `n`.
pub fn u128_to_hex(n: u128) -> (s: String)
    ensures
        s@ == hex(n as nat),
{
    let mut m = n;
    let mut v: Vec<char> = Vec::new();
    while m >= 16
        invariant
            hex(n as nat) == hex(m as nat) + v@,
        decreases m,
    {
        let c = hex_to_char(m % 16);
        proof {
            assert(hex(m as nat) == hex((m / 16) as nat).push(hex_digit((m % 16) as nat)));
            assert(hex(m as nat) + v@ =~= hex((m / 16) as nat) + seq![c].add(v@));
        }
        v.insert(0, c);
        m = m / 16;
    }
    let c = hex_to_char(m);
    v.insert(0, c);
    proof {
        assert(hex(m as nat) == seq![c]);
    }
    string_from_chars(v.as_slice())
}

/// The characters of `s`, in order.
pub fn chars_of(s: &str) -> (v: Vec<char>)
    ensures
        v@ == s@,
{
    let mut v: Vec<char> = Vec::new();
    for c in it: s.chars()
        invariant
            v@ == it.seq().take(it.index() as int),
            it.seq() == s@,
    {
        v.push(c);
        proof {
            assert(it.seq().take(it.index() + 1) =~= it.seq().take(it.index() as int).push(c));
        }
    }
    proof { assert(v@ =~= s@); }
    v
}


/// Builds a `String` holding exactly the characters `v`.
#[verifier::external_body]
pub(crate) fn string_from_chars(v: &[char]) -> (s: String)
    ensures
        s@ == v@,
{
    v.iter().collect()
}

/// The text of `s` as a `String`.
pub fn string_of(s: &str) -> (r: String)
    ensures
        r@ == s@,
{
    let v = chars_of(s);
    string_from_chars(v.as_slice())
}

/// Decimal text of an unsigned number.
pub fn u128_to_string(n: u128) -> (s: String)
    ensures
        s@ == decimal(n as nat),
{
    let v = u128_to_chars(n);
    string_from_chars(v.as_slice())
}

/// Decimal text of a signed number: a minus sign before the digits of its magnitude.
pub open spec fn signed_decimal(i: int) -> Seq<char> {
    if i < 0 {
        seq!['-'] + decimal((-i) as nat)
    } else {
        decimal(i as nat)
    }
}

/// Decimal text of an `i64`, as `i64::to_string` writes it.
pub fn i64_to_string(x: i64) -> (s: String)
    ensures
        s@ == signed_decimal(x as int),
{
    if x < 0 {
        let mag: u128 = (0i128 - (x as i128)) as u128;
        let mut v = u128_to_chars(mag);
        v.insert(0, '-');
        proof {
            assert(v@ =~= seq!['-'] + decimal((-(x as int)) as nat));
        }
        string_from_chars(v.as_slice())
    } else {
        u128_to_string(x as u128)
    }
}

/// The text `a` followed by the text `b`.
pub fn cat(a: &str, b: &str) -> (r: String)
    ensures
        r@ == a@ + b@,
{
    let mut x = chars_of(a);
    let mut y = chars_of(b);
    x.append(&mut y);
    string_from_chars(x.as_slice())
}

/// Whether `a` and `b` hold the same characters.
pub fn chars_eq(a: &Vec<char>, b: &Vec<char>) -> (r: bool)
    ensures
        r == (a@ == b@),
{
    if a.len() != b.len() {
        return false;
    }
    let mut i: usize = 0;
    while i < a.len()
        invariant
            a.len() == b.len(),
            i <= a.len(),
            forall|k: int| 0 <= k < i ==> a@[k] == b@[k],
        decreases a.len() - i,
    {
        if a[i] != b[i] {
            return false;
        }
        i = i + 1;
    }
    proof {
        assert(a@ =~= b@);
    }
    true
}

/// Whether `a` and `b` are the same text.
pub fn str_eq(a: &str, b: &str) -> (r: bool)
    ensures
        r == (a@ == b@),
{
    let x = chars_of(a);
    let y = chars_of(b);
    chars_eq(&x, &y)
}

/// The view of an optional string.
pub open spec fn opt_view(o: Option<String>) -> Option<Seq<char>> {
    match o {
        Some(s) => Some(s@),
        None => None,
    }
}

/// A copy of an optional string.
pub fn copy_opt(o: &Option<String>) -> (r: Option<String>)
    ensures
        opt_view(r) == opt_view(*o),
{
    match o {
        Some(s) => Some(s.clone()),
        None => None,
    }
}

/// Whether two optional strings are equal.
pub fn opt_eq(a: &Option<String>, b: &Option<String>) -> (r: bool)
    ensures
        r == (opt_view(*a) == opt_view(*b)),
{
    match (a, b) {
        (Some(x), Some(y)) => str_eq(x.as_str(), y.as_str()),
        (None, None) => true,
        _ => false,
    }
}

/// `Some(s)` unless `s` is empty, as `Option::filter(|s| !s.is_empty())` keeps it.
pub open spec fn non_empty(o: Option<Seq<char>>) -> Option<Seq<char>> {
    match o {
        Some(s) => if s.len() == 0 {
            None
        } else {
            Some(s)
        },
        None => None,
    }
}

/// An optional string with an empty one dropped.
pub fn filter_non_empty(o: Option<String>) -> (r: Option<String>)
    ensures
        opt_view(r) == non_empty(opt_view(o)),
{
    match o {
        Some(s) => {
            let v = chars_of(s.as_str());
            if v.len() == 0 {
                None
            } else {
                Some(s)
            }
        },
        None => None,
    }
}

/// The lowercase form of `s`, as `str::to_lowercase` computes it (Unicode
/// case mapping).
pub uninterp spec fn lowercase(s: Seq<char>) -> Seq<char>;

/// The uppercase form of `s`, as `str::to_uppercase` computes it (Unicode
/// case mapping).
pub uninterp spec fn uppercase(s: Seq<char>) -> Seq<char>;

/// Calls `str::to_lowercase`; its result is named `lowercase`, a function of
/// the text alone. Nothing more about the Unicode mapping is stated.
#[verifier::external_body]
pub(crate) fn to_lowercase(s: &str) -> (r: String)
    ensures
        r@ == lowercase(s@),
{
    s.to_lowercase()
}

/// Calls `str::to_uppercase`; its result is named `uppercase`, a function of
/// the text alone. Nothing more about the Unicode mapping is stated.
#[verifier::external_body]
pub(crate) fn to_uppercase(s: &str) -> (r: String)
    ensures
        r@ == uppercase(s@),
{
    s.to_uppercase()
}

/// The text `String::from_utf8_lossy` makes of the bytes `b`: their UTF-8
/// decoding, with each invalid sequence replaced by U+FFFD.
pub uninterp spec fn lossy_utf8(b: Seq<u8>) -> Seq<char>;

/// Calls `String::from_utf8_lossy`. Its result is named `lossy_utf8`, a
/// function of the bytes alone; for valid UTF-8 it is the decoded text, as
/// the documentation states. How invalid sequences are replaced is not
/// stated.
#[verifier::external_body]
pub(crate) fn from_utf8_lossy(b: &[u8]) -> (r: String)
    ensures
        r@ == lossy_utf8(b@),
        vstd::utf8::valid_utf8(b@) ==> r@ == vstd::utf8::decode_utf8(b@),
{
    String::from_utf8_lossy(b).into_owned()
}

// ---------------------------------------------------------------- whitespace

/// Unicode `White_Space`, the property that `char::is_whitespace` tests.
pub open spec fn is_ws(c: char) -> bool {
    let u = c as u32;
    ||| 0x09 <= u <= 0x0D
    ||| u == 0x20
    ||| u == 0x85
    ||| u == 0xA0
    ||| u == 0x1680
    ||| 0x2000 <= u <= 0x200A
    ||| u == 0x2028
    ||| u == 0x2029
    ||| u == 0x202F
    ||| u == 0x205F
    ||| u == 0x3000
}

/// Whether `c` is white space.
pub fn char_is_ws(c: char) -> (b: bool)
    ensures
        b == is_ws(c),
{
    let u = c as u32;
    (0x09 <= u && u <= 0x0D) || u == 0x20 || u == 0x85 || u == 0xA0 || u == 0x1680 || (0x2000
        <= u && u <= 0x200A) || u == 0x2028 || u == 0x2029 || u == 0x202F || u == 0x205F || u
        == 0x3000
}

/// `s` without its leading white space.
pub open spec fn trim_start(s: Seq<char>) -> Seq<char>
    decreases s.len(),
{
    if s.len() > 0 && is_ws(s[0]) {
        trim_start(s.subrange(1, s.len() as int))
    } else {
        s
    }
}

/// `s` without its trailing white space.
pub open spec fn trim_end(s: Seq<char>) -> Seq<char>
    decreases s.len(),
{
    if s.len() > 0 && is_ws(s.last()) {
        trim_end(s.drop_last())
    } else {
        s
    }
}

/// `s` without white space at either end, as `str::trim` returns it.
pub open spec fn trim(s: Seq<char>) -> Seq<char> {
    trim_end(trim_start(s))
}

/// `s` without every trailing `c`, as `str::trim_end_matches(c)` returns it.
pub open spec fn strip_trailing(s: Seq<char>, c: char) -> Seq<char>
    decreases s.len(),
{
    if s.len() > 0 && s.last() == c {
        strip_trailing(s.drop_last(), c)
    } else {
        s
    }
}

/// The characters `v[i..j]`.
pub fn copy_range(v: &Vec<char>, i: usize, j: usize) -> (r: Vec<char>)
    requires
        i <= j <= v.len(),
    ensures
        r@ == v@.subrange(i as int, j as int),
{
    let mut r: Vec<char> = Vec::new();
    let mut k = i;
    while k < j
        invariant
            i <= k <= j <= v.len(),
            r@ == v@.subrange(i as int, k as int),
        decreases j - k,
    {
        r.push(v[k]);
        proof {
            assert(v@.subrange(i as int, k + 1) =~= v@.subrange(i as int, k as int).push(v@[k as int]));
        }
        k = k + 1;
    }
    r
}

/// `v` without white space at either end.
pub fn trim_chars(v: &Vec<char>) -> (r: Vec<char>)
    ensures
        r@ == trim(v@),
{
    let n = v.len();
    let mut i: usize = 0;
    proof {
        assert(v@.subrange(0, n as int) =~= v@);
    }
    while i < n && char_is_ws(v[i])
        invariant
            i <= n == v.len(),
            trim_start(v@) == trim_start(v@.subrange(i as int, n as int)),
        decreases n - i,
    {
        proof {
            let t = v@.subrange(i as int, n as int);
            assert(t.subrange(1, t.len() as int) =~= v@.subrange(i + 1, n as int));
        }
        i = i + 1;
    }
    let mut j: usize = n;
    while j > i && char_is_ws(v[j - 1])
        invariant
            i <= j <= n == v.len(),
            trim_start(v@) == v@.subrange(i as int, n as int),
            trim_end(v@.subrange(i as int, n as int)) == trim_end(v@.subrange(i as int, j as int)),
        decreases j - i,
    {
        proof {
            assert(v@.subrange(i as int, j as int).drop_last() =~= v@.subrange(i as int, j - 1));
        }
        j = j - 1;
    }
    copy_range(v, i, j)
}

/// The text of `s` without white space at either end.
pub fn trim_str(s: &str) -> (r: Vec<char>)
    ensures
        r@ == trim(s@),
{
    let v = chars_of(s);
    trim_chars(&v)
}

/// `v` without every trailing `c`.
pub fn strip_trailing_chars(v: &Vec<char>, c: char) -> (r: Vec<char>)
    ensures
        r@ == strip_trailing(v@, c),
{
    let n = v.len();
    let mut j: usize = n;
    proof {
        assert(v@.subrange(0, n as int) =~= v@);
    }
    while j > 0 && v[j - 1] == c
        invariant
            j <= n == v.len(),
            strip_trailing(v@, c) == strip_trailing(v@.subrange(0, j as int), c),
        decreases j,
    {
        proof {
            assert(v@.subrange(0, j as int).drop_last() =~= v@.subrange(0, j - 1));
        }
        j = j - 1;
    }
    copy_range(v, 0, j)
}

// ---------------------------------------------------------------- numbers

/// Whether `c` is an ASCII decimal digit.
pub open spec fn is_digit(c: char) -> bool {
    '0' <= c <= '9'
}

/// The value of the digit `c`.
pub open spec fn digit_value(c: char) -> nat {
    ((c as u32) - 48) as nat
}

/// Whether every character of `s` is a digit.
pub open spec fn all_digits(s: Seq<char>) -> bool {
    forall|i: int| 0 <= i < s.len() ==> is_digit(#[trigger] s[i])
}

/// The number that the digits `s` write in base ten.
pub open spec fn digits_value(s: Seq<char>) -> nat
    decreases s.len(),
{
    if s.len() == 0 {
        0
    } else {
        digits_value(s.drop_last()) * 10 + digit_value(s.last())
    }
}

/// The digits after an optional leading `+`, as unsigned `from_str` reads them:
/// `None` unless at least one digit follows and nothing else does.
pub open spec fn parse_unsigned(s: Seq<char>) -> Option<nat> {
    let body = if s.len() > 0 && s[0] == '+' {
        s.subrange(1, s.len() as int)
    } else {
        s
    };
    if body.len() > 0 && all_digits(body) {
        Some(digits_value(body))
    } else {
        None
    }
}

/// What `s.parse::<u16>()` gives, with any error as `None`.
pub open spec fn parse_u16_spec(s: Seq<char>) -> Option<u16> {
    match parse_unsigned(s) {
        Some(v) => if v <= u16::MAX {
            Some(v as u16)
        } else {
            None
        },
        None => None,
    }
}

/// What `s.parse::<u64>()` gives, with any error as `None`.
pub open spec fn parse_u64_spec(s: Seq<char>) -> Option<u64> {
    match parse_unsigned(s) {
        Some(v) => if v <= u64::MAX {
            Some(v as u64)
        } else {
            None
        },
        None => None,
    }
}

/// What `s.parse::<i64>()` gives, with any error as `None`: an optional
/// sign, then at least one digit, in the range of `i64`.
pub open spec fn parse_i64_spec(s: Seq<char>) -> Option<i64> {
    if s.len() > 0 && s[0] == '-' {
        let body = s.subrange(1, s.len() as int);
        if body.len() > 0 && all_digits(body) && digits_value(body) <= 0x8000_0000_0000_0000 {
            Some((-digits_value(body)) as i64)
        } else {
            None
        }
    } else {
        match parse_unsigned(s) {
            Some(v) => if v <= i64::MAX {
                Some(v as i64)
            } else {
                None
            },
            None => None,
        }
    }
}

proof fn lemma_digits_value_prefix(s: Seq<char>, i: int)
    requires
        0 <= i <= s.len(),
    ensures
        digits_value(s.subrange(0, i)) <= digits_value(s),
    decreases s.len(),
{
    if i < s.len() {
        assert(s.drop_last().subrange(0, i) =~= s.subrange(0, i));
        lemma_digits_value_prefix(s.drop_last(), i);
    } else {
        assert(s.subrange(0, i) =~= s);
    }
}

/// The value of the digits `v[start..]`, if all are digits, there is at
/// least one, and the value is at most `limit`.
fn parse_digits(v: &Vec<char>, start: usize, limit: u128) -> (r: Option<u128>)
    requires
        start <= v.len(),
        limit <= u64::MAX,
    ensures
        ({
            let body = v@.subrange(start as int, v@.len() as int);
            r == if body.len() > 0 && all_digits(body) && digits_value(body) <= limit {
                Some(digits_value(body) as u128)
            } else {
                None
            }
        }),
{
    let n = v.len();
    let ghost body = v@.subrange(start as int, n as int);
    if start == n {
        return None;
    }
    let mut acc: u128 = 0;
    let mut k = start;
    while k < n
        invariant
            start <= k <= n == v.len(),
            body == v@.subrange(start as int, n as int),
            acc <= limit <= u64::MAX,
            all_digits(v@.subrange(start as int, k as int)),
            acc == digits_value(v@.subrange(start as int, k as int)),
        decreases n - k,
    {
        let c = v[k];
        if !('0' <= c && c <= '9') {
            proof {
                assert(body[k - start] == c);
            }
            return None;
        }
        let d = ((c as u32) - 48) as u128;
        proof {
            let p = v@.subrange(start as int, k + 1);
            assert(p.drop_last() =~= v@.subrange(start as int, k as int));
            assert(p.last() == c);
        }
        acc = acc * 10 + d;
        if acc > limit {
            proof {
                let p = v@.subrange(start as int, k + 1);
                if all_digits(body) {
                    assert(body.subrange(0, k + 1 - start) =~= p);
                    lemma_digits_value_prefix(body, k + 1 - start);
                }
            }
            return None;
        }
        k = k + 1;
    }
    proof {
        assert(v@.subrange(start as int, k as int) =~= body);
    }
    Some(acc)
}

/// `s.parse::<u16>().ok()`.
pub fn parse_u16(s: &str) -> (r: Option<u16>)
    ensures
        r == parse_u16_spec(s@),
{
    let v = chars_of(s);
    let start: usize = if v.len() > 0 && v[0] == '+' { 1 } else { 0 };
    proof {
        assert(v@.subrange(0, v@.len() as int) =~= v@);
    }
    match parse_digits(&v, start, 0xFFFF) {
        Some(x) => Some(x as u16),
        None => None,
    }
}

/// `s.parse::<u64>().ok()`.
pub fn parse_u64(s: &str) -> (r: Option<u64>)
    ensures
        r == parse_u64_spec(s@),
{
    let v = chars_of(s);
    let start: usize = if v.len() > 0 && v[0] == '+' { 1 } else { 0 };
    proof {
        assert(v@.subrange(0, v@.len() as int) =~= v@);
    }
    match parse_digits(&v, start, 0xFFFF_FFFF_FFFF_FFFF) {
        Some(x) => Some(x as u64),
        None => None,
    }
}

/// `s.parse::<i64>().ok()`.
pub fn parse_i64(s: &str) -> (r: Option<i64>)
    ensures
        r == parse_i64_spec(s@),
{
    let v = chars_of(s);
    if v.len() > 0 && v[0] == '-' {
        match parse_digits(&v, 1, 0x8000_0000_0000_0000) {
            Some(x) => {
                let r = (0i128 - (x as i128)) as i64;
                Some(r)
            },
            None => None,
        }
    } else {
        let start: usize = if v.len() > 0 && v[0] == '+' { 1 } else { 0 };
        proof {
            assert(v@.subrange(0, v@.len() as int) =~= v@);
        }
        match parse_digits(&v, start, 0x7FFF_FFFF_FFFF_FFFF) {
            Some(x) => Some(x as i64),
            None => None,
        }
    }
}


proof fn lemma_digit_char(d: nat)
    requires
        d < 10,
    ensures
        is_digit(digit_char(d)),
        digit_value(digit_char(d)) == d,
{
    let b = (48 + d) as u8;
    assert(b as nat == 48 + d);
    assert((b as char) as u32 == b as u32);
}

/// The decimal text of `n` is a non-empty run of digits whose value is `n`.
pub proof fn lemma_decimal_digits(n: nat)
    ensures
        decimal(n).len() > 0,
        all_digits(decimal(n)),
        digits_value(decimal(n)) == n,
        is_digit(decimal(n)[0]),
    decreases n,
{
    if n >= 10 {
        lemma_decimal_digits(n / 10);
        let d = decimal(n);
        assert(d.drop_last() =~= decimal(n / 10));
        assert(d[0] == decimal(n / 10)[0]);
        assert(n == (n / 10) * 10 + n % 10) by (nonlinear_arith);
        lemma_digit_char(n % 10);
        assert(d.last() == digit_char(n % 10));
        assert(digits_value(d) == digits_value(decimal(n / 10)) * 10 + digit_value(digit_char(n % 10)));
        assert forall|i: int| 0 <= i < d.len() implies is_digit(#[trigger] d[i]) by {
            if i < d.len() - 1 {
                assert(d[i] == decimal(n / 10)[i]);
            }
        }
    } else {
        lemma_digit_char(n);
        assert(decimal(n).drop_last() =~= Seq::<char>::empty());
        assert(digits_value(decimal(n)) == digits_value(Seq::<char>::empty()) * 10 + digit_value(digit_char(n)));
    }
}

/// Reading back the decimal text of a `u64` gives the same number.
pub proof fn lemma_parse_u64_decimal(n: u64)
    ensures
        parse_u64_spec(decimal(n as nat)) == Some(n),
{
    lemma_decimal_digits(n as nat);
}

/// Reading back the decimal text of a `u16` gives the same number.
pub proof fn lemma_parse_u16_decimal(n: u16)
    ensures
        parse_u16_spec(decimal(n as nat)) == Some(n),
{
    lemma_decimal_digits(n as nat);
}

/// Reading back the decimal text of an `i64` gives the same number.
pub proof fn lemma_parse_i64_decimal(x: i64)
    ensures
        parse_i64_spec(signed_decimal(x as int)) == Some(x),
{
    if x < 0 {
        let m = (-(x as int)) as nat;
        lemma_decimal_digits(m);
        let s = signed_decimal(x as int);
        assert(s.subrange(1, s.len() as int) =~= decimal(m));
    } else {
        lemma_decimal_digits(x as nat);
    }
}

} // verus!
