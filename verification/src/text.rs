use vstd::prelude::*;

use crate::error::Error;

verus! {

/// ASCII lowercasing of one character; every other character is kept.
/// The boolean tokens are pure ASCII, so ASCII folding decides the same
/// matches as full case folding would.
pub open spec fn lower_char(c: char) -> char {
    if c == 'A' {
        'a'
    } else if c == 'B' {
        'b'
    } else if c == 'C' {
        'c'
    } else if c == 'D' {
        'd'
    } else if c == 'E' {
        'e'
    } else if c == 'F' {
        'f'
    } else if c == 'G' {
        'g'
    } else if c == 'H' {
        'h'
    } else if c == 'I' {
        'i'
    } else if c == 'J' {
        'j'
    } else if c == 'K' {
        'k'
    } else if c == 'L' {
        'l'
    } else if c == 'M' {
        'm'
    } else if c == 'N' {
        'n'
    } else if c == 'O' {
        'o'
    } else if c == 'P' {
        'p'
    } else if c == 'Q' {
        'q'
    } else if c == 'R' {
        'r'
    } else if c == 'S' {
        's'
    } else if c == 'T' {
        't'
    } else if c == 'U' {
        'u'
    } else if c == 'V' {
        'v'
    } else if c == 'W' {
        'w'
    } else if c == 'X' {
        'x'
    } else if c == 'Y' {
        'y'
    } else if c == 'Z' {
        'z'
    } else {
        c
    }
}

pub open spec fn lower_str(s: Seq<char>) -> Seq<char> {
    s.map_values(|c: char| lower_char(c))
}

/// The tokens read as true: `true`, `1`, `y`, in any case.
pub open spec fn truthy(s: Seq<char>) -> bool {
    lower_str(s) == "true"@ || lower_str(s) == "1"@ || lower_str(s) == "y"@
}

/// The tokens read as false: `false`, `0`, `n`, in any case.
pub open spec fn falsy(s: Seq<char>) -> bool {
    lower_str(s) == "false"@ || lower_str(s) == "0"@ || lower_str(s) == "n"@
}

fn lower_char_exec(c: char) -> (r: char)
    ensures
        r == lower_char(c),
{
    match c {
        'A' => 'a',
        'B' => 'b',
        'C' => 'c',
        'D' => 'd',
        'E' => 'e',
        'F' => 'f',
        'G' => 'g',
        'H' => 'h',
        'I' => 'i',
        'J' => 'j',
        'K' => 'k',
        'L' => 'l',
        'M' => 'm',
        'N' => 'n',
        'O' => 'o',
        'P' => 'p',
        'Q' => 'q',
        'R' => 'r',
        'S' => 's',
        'T' => 't',
        'U' => 'u',
        'V' => 'v',
        'W' => 'w',
        'X' => 'x',
        'Y' => 'y',
        'Z' => 'z',
        _ => c,
    }
}

/// Case-insensitive comparison of `s` against a token.
fn eq_ci(s: &str, token: &str) -> (r: bool)
    ensures
        r == (lower_str(s@) == token@),
{
    let n = s.unicode_len();
    let m = token.unicode_len();
    if n != m {
        proof {
            assert(lower_str(s@).len() == s@.len());
        }
        return false;
    }
    let mut i: usize = 0;
    while i < n
        invariant
            n == s@.len(),
            n == token@.len(),
            0 <= i <= n,
            forall|k: int| 0 <= k < i ==> lower_char(s@[k]) == token@[k],
        decreases n - i,
    {
        if lower_char_exec(s.get_char(i)) != token.get_char(i) {
            proof {
                assert(lower_str(s@)[i as int] != token@[i as int]);
            }
            return false;
        }
        i = i + 1;
    }
    proof {
        assert(lower_str(s@) =~= token@);
    }
    true
}

/// Reads a boolean from element or attribute text: exactly the truthy
/// and falsy tokens are accepted, any other text is `ExpectedBool`.
pub fn parse_bool_text(s: &str) -> (r: Result<bool, Error>)
    ensures
        match r {
            Ok(b) => if b {
                truthy(s@)
            } else {
                falsy(s@) && !truthy(s@)
            },
            Err(e) => !truthy(s@) && !falsy(s@) && e is ExpectedBool,
        },
{
    if eq_ci(s, "true") || eq_ci(s, "1") || eq_ci(s, "y") {
        Ok(true)
    } else if eq_ci(s, "false") || eq_ci(s, "0") || eq_ci(s, "n") {
        Ok(false)
    } else {
        Err(Error::ExpectedBool)
    }
}

/// Reads a character: the text must be exactly one character.
pub fn parse_char_text(s: &str) -> (r: Result<char, Error>)
    ensures
        match r {
            Ok(c) => s@.len() == 1 && c == s@[0],
            Err(e) => s@.len() != 1 && e is ExpectedChar,
        },
{
    if s.unicode_len() == 1 {
        Ok(s.get_char(0))
    } else {
        Err(Error::ExpectedChar)
    }
}

pub open spec fn is_digit(c: char) -> bool {
    '0' <= c && c <= '9'
}

pub open spec fn digit_val(c: char) -> nat {
    ((c as u32) - ('0' as u32)) as nat
}

pub open spec fn all_digits(s: Seq<char>) -> bool {
    forall|i: int| 0 <= i < s.len() ==> is_digit(s[i])
}

/// The number a digit string denotes.
pub open spec fn dec_val(s: Seq<char>) -> nat
    decreases s.len(),
{
    if s.len() == 0 {
        0
    } else {
        dec_val(s.drop_last()) * 10 + digit_val(s.last())
    }
}

/// Digits to the right never shrink the value.
proof fn lemma_dec_val_mono(s: Seq<char>, i: int)
    requires
        0 <= i <= s.len(),
    ensures
        dec_val(s.take(i)) <= dec_val(s),
    decreases s.len() - i,
{
    if i == s.len() {
        assert(s.take(i) =~= s);
    } else {
        assert(s.take(i + 1).drop_last() =~= s.take(i));
        assert(dec_val(s.take(i + 1)) == dec_val(s.take(i)) * 10 + digit_val(s.take(i + 1).last()));
        assert(dec_val(s.take(i)) * 10 >= dec_val(s.take(i))) by (nonlinear_arith);
        lemma_dec_val_mono(s, i + 1);
    }
}

/// The digit part of unsigned integer text: one optional leading `+`.
pub open spec fn uint_digits(s: Seq<char>) -> Seq<char> {
    if s.len() >= 1 && s[0] == '+' {
        s.drop_first()
    } else {
        s
    }
}

/// Whether the text is well-formed unsigned integer text.
pub open spec fn uint_text_ok(s: Seq<char>) -> bool {
    uint_digits(s).len() >= 1 && all_digits(uint_digits(s))
}

fn parse_digits_u64(s: &str, from: usize) -> (r: Result<u64, Error>)
    requires
        from <= s@.len(),
    ensures
        ({
            let d = s@.skip(from as int);
            match r {
                Ok(v) => d.len() >= 1 && all_digits(d) && v == dec_val(d),
                Err(e) => (d.len() == 0 || !all_digits(d) || dec_val(d) > u64::MAX) && e
                    is ExpectedInt,
            }
        }),
{
    let ghost d = s@.skip(from as int);
    let n = s.unicode_len();
    if from == n {
        return Err(Error::ExpectedInt);
    }
    let mut acc: u64 = 0;
    let mut i: usize = from;
    while i < n
        invariant
            n == s@.len(),
            d == s@.skip(from as int),
            from <= i <= n,
            all_digits(d.take(i - from)),
            acc == dec_val(d.take(i - from)),
        decreases n - i,
    {
        let c = s.get_char(i);
        if !(c >= '0' && c <= '9') {
            proof {
                assert(d[i - from] == c);
                assert(!is_digit(d[i - from]));
            }
            return Err(Error::ExpectedInt);
        }
        let dv: u64 = (c as u32 as u64) - ('0' as u32 as u64);
        let acc10 = match acc.checked_mul(10) {
            Some(x) => x,
            None => {
                proof {
                    assert(dec_val(d.take(i + 1 - from)) > u64::MAX) by {
                        assert(d.take(i + 1 - from).drop_last() =~= d.take(i - from));
                        assert(dec_val(d.take(i + 1 - from)) == acc * 10 + digit_val(d[i - from]));
                    }
                    lemma_dec_val_mono(d, i + 1 - from);
                }
                return Err(Error::ExpectedInt);
            },
        };
        let acc2 = match acc10.checked_add(dv) {
            Some(x) => x,
            None => {
                proof {
                    assert(dec_val(d.take(i + 1 - from)) > u64::MAX) by {
                        assert(d.take(i + 1 - from).drop_last() =~= d.take(i - from));
                        assert(dec_val(d.take(i + 1 - from)) == acc * 10 + digit_val(d[i - from]));
                    }
                    lemma_dec_val_mono(d, i + 1 - from);
                }
                return Err(Error::ExpectedInt);
            },
        };
        proof {
            assert(d.take(i + 1 - from).drop_last() =~= d.take(i - from));
            assert(d.take(i + 1 - from).last() == d[i - from]);
            assert(digit_val(d[i - from]) == dv);
        }
        acc = acc2;
        i = i + 1;
    }
    proof {
        assert(d.take(n - from) =~= d);
    }
    Ok(acc)
}

/// Reads an unsigned integer: an optional `+`, then decimal digits,
/// rejected when empty, malformed or beyond the width.
pub fn parse_u64_text(s: &str) -> (r: Result<u64, Error>)
    ensures
        match r {
            Ok(v) => uint_text_ok(s@) && v == dec_val(uint_digits(s@)),
            Err(e) => (!uint_text_ok(s@) || dec_val(uint_digits(s@)) > u64::MAX) && e
                is ExpectedInt,
        },
{
    let n = s.unicode_len();
    if n >= 1 && s.get_char(0) == '+' {
        proof {
            assert(uint_digits(s@) =~= s@.skip(1));
        }
        parse_digits_u64(s, 1)
    } else {
        proof {
            assert(uint_digits(s@) =~= s@.skip(0));
        }
        parse_digits_u64(s, 0)
    }
}

/// The sign and digit part of signed integer text.
pub open spec fn sint_negative(s: Seq<char>) -> bool {
    s.len() >= 1 && s[0] == '-'
}

pub open spec fn sint_digits(s: Seq<char>) -> Seq<char> {
    if s.len() >= 1 && (s[0] == '-' || s[0] == '+') {
        s.drop_first()
    } else {
        s
    }
}

pub open spec fn sint_text_ok(s: Seq<char>) -> bool {
    sint_digits(s).len() >= 1 && all_digits(sint_digits(s))
}

/// The integer the signed text denotes.
pub open spec fn sint_val(s: Seq<char>) -> int {
    if sint_negative(s) {
        -(dec_val(sint_digits(s)) as int)
    } else {
        dec_val(sint_digits(s)) as int
    }
}

/// Reads a signed integer: an optional sign, then decimal digits,
/// rejected when empty, malformed or beyond the width.
pub fn parse_i64_text(s: &str) -> (r: Result<i64, Error>)
    ensures
        match r {
            Ok(v) => sint_text_ok(s@) && v == sint_val(s@),
            Err(e) => (!sint_text_ok(s@) || sint_val(s@) < i64::MIN || sint_val(s@) > i64::MAX)
                && e is ExpectedInt,
        },
{
    let n = s.unicode_len();
    let neg = n >= 1 && s.get_char(0) == '-';
    let pos = n >= 1 && s.get_char(0) == '+';
    let from: usize = if neg || pos {
        1
    } else {
        0
    };
    proof {
        assert(sint_digits(s@) =~= s@.skip(from as int));
    }
    let mag = match parse_digits_u64(s, from) {
        Ok(v) => v,
        Err(e) => {
            proof {
                let d = sint_digits(s@);
                if d.len() >= 1 && all_digits(d) && dec_val(d) > u64::MAX {
                    if sint_negative(s@) {
                        assert(sint_val(s@) < i64::MIN);
                    } else {
                        assert(sint_val(s@) > i64::MAX);
                    }
                }
            }
            return Err(e);
        },
    };
    if neg {
        if mag <= 9223372036854775807u64 {
            Ok(-(mag as i64))
        } else if mag == 9223372036854775808u64 {
            Ok(i64::MIN)
        } else {
            Err(Error::ExpectedInt)
        }
    } else {
        if mag <= 9223372036854775807u64 {
            Ok(mag as i64)
        } else {
            Err(Error::ExpectedInt)
        }
    }
}

/// The whitespace characters of XML documents.
pub open spec fn is_xml_ws(c: char) -> bool {
    c == ' ' || c == '\t' || c == '\r' || c == '\n'
}

/// `i` is the length of the leading whitespace run of `s`.
pub open spec fn is_ws_prefix_end(s: Seq<char>, i: int) -> bool {
    &&& 0 <= i <= s.len()
    &&& forall|k: int| 0 <= k < i ==> is_xml_ws(s[k])
    &&& (i == s.len() || !is_xml_ws(s[i]))
}

/// The length of the leading whitespace run of `s`.
pub open spec fn ws_prefix_len(s: Seq<char>) -> int {
    choose|i: int| is_ws_prefix_end(s, i)
}

/// Strips the leading whitespace run, per `ws_prefix_len`.
pub fn skip_leading_ws(s: &str) -> (r: &str)
    ensures
        r@ == s@.skip(ws_prefix_len(s@)),
{
    let n = s.unicode_len();
    let mut i: usize = 0;
    while i < n
        invariant
            n == s@.len(),
            0 <= i <= n,
            forall|k: int| 0 <= k < i ==> is_xml_ws(s@[k]),
        decreases n - i,
    {
        let c = s.get_char(i);
        if !(c == ' ' || c == '\t' || c == '\r' || c == '\n') {
            let out = s.substring_char(i, n);
            proof {
                assert(is_ws_prefix_end(s@, i as int));
                let j = choose|j: int| is_ws_prefix_end(s@, j);
                if j < i as int {
                    assert(is_xml_ws(s@[j]));
                } else if j > i as int {
                    assert(!is_xml_ws(s@[i as int]));
                }
                assert(j == i as int);
                assert(out@ =~= s@.skip(i as int));
            }
            return out;
        }
        i = i + 1;
    }
    let out = s.substring_char(n, n);
    proof {
        assert(is_ws_prefix_end(s@, n as int));
        let j = choose|j: int| is_ws_prefix_end(s@, j);
        if j < n as int {
            assert(is_xml_ws(s@[j]));
        }
        assert(j == n as int);
        assert(out@ =~= s@.skip(n as int));
    }
    out
}

} // verus!
