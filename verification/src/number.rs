//! Number syntax: which decimal literals std's `f64` and `u8` parsers
//! accept, as their documentation gives the grammar.
//!
//! `f64::from_str` accepts, after ASCII lowercasing,
//! `Sign? ('inf' | 'infinity' | 'nan' | Number)` with
//! `Number ::= (Digit+ | Digit+ '.' Digit* | Digit* '.' Digit+) Exp?` and
//! `Exp ::= 'e' Sign? Digit+`. `u8::from_str` accepts an optional `+` and
//! one or more digits whose value is at most 255.

use vstd::prelude::*;

use crate::text::{first_index_of, is_digit, find_char, lemma_first_index_of, lemma_first_index_of_none};

verus! {

pub open spec fn ascii_lower(c: char) -> char {
    if 'A' <= c && c <= 'Z' {
        ((c as u32) + 32) as char
    } else {
        c
    }
}

pub open spec fn lower(s: Seq<char>) -> Seq<char> {
    s.map_values(|c: char| ascii_lower(c))
}

pub open spec fn all_digits(s: Seq<char>) -> bool {
    forall|i: int| 0 <= i < s.len() ==> is_digit(s[i])
}

pub open spec fn is_sign(c: char) -> bool {
    c == '+' || c == '-'
}

/// `Digit+ | Digit+ '.' Digit* | Digit* '.' Digit+`
pub open spec fn is_mantissa(m: Seq<char>) -> bool {
    match first_index_of(m, '.') {
        None => m.len() > 0 && all_digits(m),
        Some(i) => m.len() >= 2 && all_digits(m.subrange(0, i)) && all_digits(
            m.subrange(i + 1, m.len() as int),
        ),
    }
}

/// `Sign? Digit+` (what follows the exponent marker)
pub open spec fn is_exponent(e: Seq<char>) -> bool {
    if e.len() > 0 && is_sign(e[0]) {
        e.len() > 1 && all_digits(e.drop_first())
    } else {
        e.len() > 0 && all_digits(e)
    }
}

/// A lowercased `Number`.
pub open spec fn is_number(s: Seq<char>) -> bool {
    match first_index_of(s, 'e') {
        None => is_mantissa(s),
        Some(i) => is_mantissa(s.subrange(0, i)) && is_exponent(s.subrange(i + 1, s.len() as int)),
    }
}

pub open spec fn is_special_float(s: Seq<char>) -> bool {
    s == seq!['i', 'n', 'f'] || s == seq!['i', 'n', 'f', 'i', 'n', 'i', 't', 'y'] || s == seq![
        'n',
        'a',
        'n',
    ]
}

/// The strings `f64::from_str` accepts.
pub open spec fn is_float_literal(s: Seq<char>) -> bool {
    let l = lower(s);
    let body = if l.len() > 0 && is_sign(l[0]) {
        l.drop_first()
    } else {
        l
    };
    is_special_float(body) || is_number(body)
}

pub open spec fn digits_value(s: Seq<char>) -> nat
    decreases s.len(),
{
    if s.len() == 0 {
        0
    } else {
        digits_value(s.drop_last()) * 10 + ((s.last() as u32) - ('0' as u32)) as nat
    }
}

/// What `u8::from_str` returns.
pub open spec fn parse_u8_spec(s: Seq<char>) -> Option<u8> {
    let body = if s.len() > 0 && s[0] == '+' {
        s.drop_first()
    } else {
        s
    };
    if body.len() > 0 && all_digits(body) && digits_value(body) <= 255 {
        Some(digits_value(body) as u8)
    } else {
        None
    }
}

// ---------------------------------------------------------------------

fn lower_chars(s: &Vec<char>) -> (res: Vec<char>)
    ensures
        res@ == lower(s@),
{
    let mut res: Vec<char> = Vec::new();
    for i in 0..s.len()
        invariant
            res@ == lower(s@.take(i as int)),
    {
        let c = s[i];
        let d = if 'A' <= c && c <= 'Z' {
            let code = (c as u32) + 32;
            assert(code <= 0x5a + 32);
            char_of(code)
        } else {
            c
        };
        res.push(d);
        assert(lower(s@.take(i as int + 1)) =~= lower(s@.take(i as int)).push(ascii_lower(s@[i as int])));
    }
    assert(s@.take(s@.len() as int) =~= s@);
    res
}

/// The ASCII character with the given code.
fn char_of(code: u32) -> (c: char)
    requires
        code < 128,
    ensures
        c == code as char,
{
    let b = code as u8;
    (b as char)
}

fn digits_in(s: &Vec<char>, from: usize, to: usize) -> (res: bool)
    requires
        from <= to <= s@.len(),
    ensures
        res == all_digits(s@.subrange(from as int, to as int)),
{
    let mut i = from;
    while i < to
        invariant
            from <= i <= to <= s@.len(),
            forall|k: int| from <= k < i ==> is_digit(#[trigger] s@[k]),
        decreases to - i,
    {
        if !('0' <= s[i] && s[i] <= '9') {
            assert(!is_digit(s@.subrange(from as int, to as int)[i - from]));
            return false;
        }
        i += 1;
    }
    assert forall|j: int| 0 <= j < to - from implies is_digit(
        #[trigger] s@.subrange(from as int, to as int)[j],
    ) by {
        assert(s@.subrange(from as int, to as int)[j] == s@[from + j]);
    }
    true
}

fn mantissa_ok(s: &Vec<char>) -> (res: bool)
    ensures
        res == is_mantissa(s@),
{
    assert(s@.subrange(0, s@.len() as int) =~= s@);
    match find_char(s, '.') {
        None => s.len() > 0 && digits_in(s, 0, s.len()),
        Some(i) => {
            s.len() >= 2 && digits_in(s, 0, i) && digits_in(s, i + 1, s.len())
        },
    }
}

fn exponent_ok(s: &Vec<char>) -> (res: bool)
    ensures
        res == is_exponent(s@),
{
    assert(s@.subrange(0, s@.len() as int) =~= s@);
    if s.len() > 0 && (s[0] == '+' || s[0] == '-') {
        assert(s@.subrange(1, s@.len() as int) =~= s@.drop_first());
        s.len() > 1 && digits_in(s, 1, s.len())
    } else {
        s.len() > 0 && digits_in(s, 0, s.len())
    }
}

fn sub_vec(s: &Vec<char>, from: usize, to: usize) -> (res: Vec<char>)
    requires
        from <= to <= s@.len(),
    ensures
        res@ == s@.subrange(from as int, to as int),
{
    let mut res: Vec<char> = Vec::new();
    let mut i = from;
    while i < to
        invariant
            from <= i <= to <= s@.len(),
            res@ == s@.subrange(from as int, i as int),
        decreases to - i,
    {
        res.push(s[i]);
        assert(res@ =~= s@.subrange(from as int, i as int + 1));
        i += 1;
    }
    res
}

fn number_ok(s: &Vec<char>) -> (res: bool)
    ensures
        res == is_number(s@),
{
    let n = s.len();
    match find_char(s, 'e') {
        None => mantissa_ok(s),
        Some(i) => {
            assert(i < n);
            let m = sub_vec(s, 0, i);
            let e = sub_vec(s, i + 1, s.len());
            mantissa_ok(&m) && exponent_ok(&e)
        },
    }
}

fn chars_equal(a: &Vec<char>, lit: &str) -> (res: bool)
    ensures
        res == (a@ == lit@),
{
    let v = crate::text::chars_of(lit);
    if a.len() != v.len() {
        return false;
    }
    let mut i: usize = 0;
    while i < a.len()
        invariant
            v@ == lit@,
            a@.len() == v@.len(),
            i <= a@.len(),
            forall|j: int| 0 <= j < i ==> a@[j] == v@[j],
        decreases a@.len() - i,
    {
        if a[i] != v[i] {
            assert(a@[i as int] != lit@[i as int]);
            return false;
        }
        i += 1;
    }
    assert(a@ =~= lit@);
    true
}

/// Whether `f64::from_str` accepts `s`.
pub fn is_float_text(s: &str) -> (res: bool)
    ensures
        res == is_float_literal(s@),
{
    let raw = crate::text::chars_of(s);
    let l = lower_chars(&raw);
    let body = if l.len() > 0 && (l[0] == '+' || l[0] == '-') {
        let b = sub_vec(&l, 1, l.len());
        assert(b@ =~= l@.drop_first());
        b
    } else {
        l
    };
    proof {
        reveal_strlit("inf");
        reveal_strlit("infinity");
        reveal_strlit("nan");
    }
    let special = chars_equal(&body, "inf") || chars_equal(&body, "infinity") || chars_equal(
        &body,
        "nan",
    );
    assert("inf"@ =~= seq!['i', 'n', 'f']);
    assert("infinity"@ =~= seq!['i', 'n', 'f', 'i', 'n', 'i', 't', 'y']);
    assert("nan"@ =~= seq!['n', 'a', 'n']);
    special || number_ok(&body)
}

/// What `u8::from_str` returns for `s`.
pub fn parse_u8(s: &str) -> (res: Option<u8>)
    ensures
        res == parse_u8_spec(s@),
{
    let raw = crate::text::chars_of(s);
    let body = if raw.len() > 0 && raw[0] == '+' {
        let b = sub_vec(&raw, 1, raw.len());
        assert(b@ =~= raw@.drop_first());
        b
    } else {
        raw
    };
    let ghost spec_body = if s@.len() > 0 && s@[0] == '+' {
        s@.drop_first()
    } else {
        s@
    };
    assert(body@ == spec_body);
    if body.len() == 0 {
        return None;
    }
    let mut value: u32 = 0;
    let mut i: usize = 0;
    while i < body.len()
        invariant
            body@ == spec_body,
            spec_body == (if s@.len() > 0 && s@[0] == '+' {
                s@.drop_first()
            } else {
                s@
            }),
            i <= body@.len(),
            all_digits(body@.take(i as int)),
            value == digits_value(body@.take(i as int)),
            value <= 255,
        decreases body@.len() - i,
    {
        let c = body[i];
        if !('0' <= c && c <= '9') {
            assert(!is_digit(body@[i as int]));
            return None;
        }
        let d = (c as u32) - ('0' as u32);
        assert(body@.take(i as int + 1).drop_last() =~= body@.take(i as int));
        assert(all_digits(body@.take(i as int + 1))) by {
            assert forall|j: int| 0 <= j < i + 1 implies is_digit(#[trigger] body@.take(i as int + 1)[j]) by {
                if j < i {
                    assert(body@.take(i as int + 1)[j] == body@.take(i as int)[j]);
                }
            }
        }
        if value > 25 || (value == 25 && d > 5) {
            proof { lemma_digits_value_monotone(body@, i as int + 1); }
            assert(digits_value(body@.take(i as int + 1)) > 255);
            proof {
                // the remaining characters only grow the value, or stop at a non-digit
                lemma_too_big(body@, i as int + 1);
            }
            return None;
        }
        value = value * 10 + d;
        i += 1;
    }
    assert(body@.take(body@.len() as int) =~= body@);
    Some(value as u8)
}

proof fn lemma_digits_value_monotone(s: Seq<char>, n: int)
    requires
        0 < n <= s.len(),
    ensures
        digits_value(s.take(n)) == digits_value(s.take(n - 1)) * 10 + ((s[n - 1] as u32) - ('0' as u32)) as nat,
{
    assert(s.take(n).drop_last() =~= s.take(n - 1));
}

proof fn lemma_too_big(s: Seq<char>, n: int)
    requires
        0 < n <= s.len(),
        all_digits(s.take(n)),
        digits_value(s.take(n)) > 255,
    ensures
        !(all_digits(s) && digits_value(s) <= 255),
    decreases s.len() - n,
{
    if n < s.len() {
        if all_digits(s) {
            assert(is_digit(s[n]));
            assert(all_digits(s.take(n + 1)));
            lemma_digits_value_monotone(s, n + 1);
            lemma_too_big(s, n + 1);
        }
    } else {
        assert(s.take(n) =~= s);
    }
}

} // verus!

verus! {

pub open spec fn digit_char(d: nat) -> char {
    ((d + 48) as u8) as char
}

/// The decimal text of a natural number.
pub open spec fn decimal(n: nat) -> Seq<char>
    decreases n,
{
    if n < 10 {
        seq![digit_char(n)]
    } else {
        decimal(n / 10).push(digit_char(n % 10))
    }
}

/// The decimal text of `n`, as `to_string` prints it.
pub fn usize_text(n: usize) -> (res: String)
    ensures
        res@ == decimal(n as nat),
{
    let mut digits: Vec<char> = Vec::new();
    let mut m = n;
    // digits collected least significant first
    let ghost mut acc: Seq<char> = Seq::empty();
    while m >= 10
        invariant
            decimal(n as nat) == decimal(m as nat) + acc,
            digits@ == acc.reverse(),
        decreases m,
    {
        let d = (m % 10) as u8;
        let c = (d + 48) as char;
        proof {
            assert(decimal(m as nat) == decimal((m / 10) as nat).push(digit_char((m % 10) as nat)));
            assert(decimal(n as nat) =~= decimal((m / 10) as nat) + (seq![c] + acc));
            assert((seq![c] + acc).reverse() =~= acc.reverse().push(c));
            acc = seq![c] + acc;
        }
        digits.push(c);
        m = m / 10;
    }
    let c = ((m as u8) + 48) as char;
    proof {
        assert((seq![c] + acc).reverse() =~= acc.reverse().push(c));
        acc = seq![c] + acc;
    }
    digits.push(c);
    assert(decimal(n as nat) =~= acc);
    let mut res = String::new();
    let mut i = digits.len();
    while i > 0
        invariant
            i <= digits@.len(),
            digits@ == acc.reverse(),
            res@ == acc.subrange(0, (acc.len() - i) as int),
        decreases i,
    {
        i -= 1;
        crate::text::push_char(&mut res, digits[i]);
        assert(acc.subrange(0, (acc.len() - i) as int) =~= acc.subrange(
            0,
            (acc.len() - i - 1) as int,
        ).push(digits@[i as int]));
    }
    assert(acc.subrange(0, acc.len() as int) =~= acc);
    res
}

} // verus!

verus! {

/// What `u32::from_str` returns.
pub open spec fn parse_u32_spec(s: Seq<char>) -> Option<u32> {
    let body = if s.len() > 0 && s[0] == '+' {
        s.drop_first()
    } else {
        s
    };
    if body.len() > 0 && all_digits(body) && digits_value(body) <= 0xffff_ffff {
        Some(digits_value(body) as u32)
    } else {
        None
    }
}

proof fn lemma_exceeds(s: Seq<char>, n: int, bound: nat)
    requires
        0 < n <= s.len(),
        all_digits(s.take(n)),
        digits_value(s.take(n)) > bound,
    ensures
        !(all_digits(s) && digits_value(s) <= bound),
    decreases s.len() - n,
{
    if n < s.len() {
        if all_digits(s) {
            assert(is_digit(s[n]));
            assert(all_digits(s.take(n + 1)));
            lemma_digits_value_monotone(s, n + 1);
            lemma_exceeds(s, n + 1, bound);
        }
    } else {
        assert(s.take(n) =~= s);
    }
}

/// What `u32::from_str` returns for the characters `s`.
pub fn parse_u32_chars(s: &Vec<char>) -> (res: Option<u32>)
    ensures
        res == parse_u32_spec(s@),
{
    let body = if s.len() > 0 && s[0] == '+' {
        let b = sub_vec(s, 1, s.len());
        assert(b@ =~= s@.drop_first());
        b
    } else {
        sub_vec(s, 0, s.len())
    };
    let ghost spec_body = if s@.len() > 0 && s@[0] == '+' {
        s@.drop_first()
    } else {
        s@
    };
    assert(body@ =~= spec_body);
    if body.len() == 0 {
        return None;
    }
    let mut value: u64 = 0;
    let mut i: usize = 0;
    while i < body.len()
        invariant
            body@ == spec_body,
            spec_body == (if s@.len() > 0 && s@[0] == '+' {
                s@.drop_first()
            } else {
                s@
            }),
            i <= body@.len(),
            all_digits(body@.take(i as int)),
            value == digits_value(body@.take(i as int)),
            value <= 0xffff_ffff,
        decreases body@.len() - i,
    {
        let c = body[i];
        if !('0' <= c && c <= '9') {
            assert(!is_digit(body@[i as int]));
            return None;
        }
        let d = (c as u64) - ('0' as u64);
        assert(body@.take(i as int + 1).drop_last() =~= body@.take(i as int));
        assert(all_digits(body@.take(i as int + 1))) by {
            assert forall|j: int| 0 <= j < i + 1 implies is_digit(#[trigger] body@.take(i as int + 1)[j]) by {
                if j < i {
                    assert(body@.take(i as int + 1)[j] == body@.take(i as int)[j]);
                }
            }
        }
        proof { lemma_digits_value_monotone(body@, i as int + 1); }
        if value > 429496729 || (value == 429496729 && d > 5) {
            assert(digits_value(body@.take(i as int + 1)) > 0xffff_ffff);
            proof { lemma_exceeds(body@, i as int + 1, 0xffff_ffff); }
            return None;
        }
        value = value * 10 + d;
        i += 1;
    }
    assert(body@.take(body@.len() as int) =~= body@);
    Some(value as u32)
}

} // verus!
