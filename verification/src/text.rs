//! Character-level helpers shared by the tokenizers and the renderers:
//! conversion between `String` and `Vec<char>`, and decimal integer
//! parsing and rendering with exact specifications.

use vstd::prelude::*;

verus! {

/// Relies on String::push: appending one character appends exactly
/// that character to the string's view.
pub assume_specification[ String::push ](s: &mut String, c: char)
    ensures
        final(s)@ == old(s)@.push(c),
;

/// Relies on str::chars: iterating a string slice yields exactly the
/// characters of its view, in order.
#[verifier::external_body]
pub(crate) fn to_chars(s: &str) -> (v: Vec<char>)
    ensures
        v@ == s@,
{
    s.chars().collect()
}

pub fn from_chars(v: &Vec<char>) -> (s: String)
    ensures
        s@ == v@,
{
    let mut s = String::new();
    let mut i: usize = 0;
    while i < v.len()
        invariant
            i <= v.len(),
            s@ == v@.subrange(0, i as int),
        decreases v.len() - i,
    {
        s.push(v[i]);
        i = i + 1;
        proof {
            assert(s@ =~= v@.subrange(0, i as int));
        }
    }
    proof {
        assert(v@.subrange(0, v@.len() as int) =~= v@);
    }
    s
}

pub open spec fn is_digit(c: char) -> bool {
    '0' <= c && c <= '9'
}

pub open spec fn all_digits(s: Seq<char>) -> bool {
    forall|i: int| 0 <= i < s.len() ==> is_digit(#[trigger] s[i])
}

pub open spec fn digit_val(c: char) -> int {
    c as int - '0' as int
}

pub open spec fn digit_char(d: int) -> char {
    if d == 0 {
        '0'
    } else if d == 1 {
        '1'
    } else if d == 2 {
        '2'
    } else if d == 3 {
        '3'
    } else if d == 4 {
        '4'
    } else if d == 5 {
        '5'
    } else if d == 6 {
        '6'
    } else if d == 7 {
        '7'
    } else if d == 8 {
        '8'
    } else {
        '9'
    }
}

/// The value of a digit string read left to right, starting from `acc`.
pub open spec fn digits_val(s: Seq<char>, acc: int) -> int
    decreases s.len(),
{
    if s.len() == 0 {
        acc
    } else {
        digits_val(s.drop_first(), acc * 10 + digit_val(s[0]))
    }
}

/// What a symbol buffer means as a decimal integer: an optional leading
/// minus sign followed by at least one digit, and nothing else.
pub open spec fn parse_int_spec(s: Seq<char>) -> Option<int> {
    if s.len() > 0 && s[0] == '-' {
        let body = s.drop_first();
        if body.len() > 0 && all_digits(body) {
            Some(-digits_val(body, 0))
        } else {
            None
        }
    } else {
        if s.len() > 0 && all_digits(s) {
            Some(digits_val(s, 0))
        } else {
            None
        }
    }
}

proof fn lemma_digits_val_lower(s: Seq<char>, acc: int)
    requires
        acc >= 0,
        all_digits(s),
    ensures
        digits_val(s, acc) >= acc,
    decreases s.len(),
{
    if s.len() > 0 {
        assert(is_digit(s[0]));
        lemma_digits_val_lower(s.drop_first(), acc * 10 + digit_val(s[0]));
    }
}

/// Reads an unsigned decimal value out of `s[from..]`, all digits, into
/// an accumulator; reports `None` exactly when the full value exceeds
/// `bound`.
fn scan_digits(s: &Vec<char>, from: usize, bound: u64) -> (r: Option<u64>)
    requires
        from <= s@.len(),
        bound >= 9,
        all_digits(s@.subrange(from as int, s@.len() as int)),
    ensures
        ({
            let tail = s@.subrange(from as int, s@.len() as int);
            match r {
                Some(m) => m == digits_val(tail, 0) && m <= bound,
                None => digits_val(tail, 0) > bound,
            }
        }),
    decreases s@.len() - from,
{
    let ghost tail = s@.subrange(from as int, s@.len() as int);
    let mut m: u64 = 0;
    let mut i: usize = from;
    while i < s.len()
        invariant
            from <= i <= s@.len(),
            bound >= 9,
            all_digits(s@.subrange(from as int, s@.len() as int)),
            m <= bound,
            digits_val(s@.subrange(from as int, s@.len() as int), 0) == digits_val(
                s@.subrange(i as int, s@.len() as int),
                m as int,
            ),
        decreases s@.len() - i,
    {
        let ghost rest = s@.subrange(i as int, s@.len() as int);
        proof {
            assert(rest.len() > 0);
            assert(rest[0] == s@[i as int]);
            assert(s@.subrange(from as int, s@.len() as int)[i - from] == s@[i as int]);
            assert(is_digit(s@[i as int]));
        }
        let c = s[i];
        let d: u64 = (c as u32 as u64) - ('0' as u32 as u64);
        proof {
            assert(d == digit_val(c));
            assert(rest.drop_first() =~= s@.subrange(i as int + 1, s@.len() as int));
        }
        proof {
            assert(d <= 9);
        }
        if m > (bound - d) / 10 {
            proof {
                assert(m as int * 10 + d as int > bound);
                assert forall|k: int| 0 <= k < s@.len() - (i + 1) implies is_digit(
                    #[trigger] s@.subrange(i as int + 1, s@.len() as int)[k],
                ) by {
                    assert(s@.subrange(i as int + 1, s@.len() as int)[k] == s@.subrange(
                        from as int,
                        s@.len() as int,
                    )[k + (i + 1) - from]);
                }
                lemma_digits_val_lower(
                    s@.subrange(i as int + 1, s@.len() as int),
                    m as int * 10 + d as int,
                );
            }
            return None;
        }
        proof {
            assert(m as int * 10 <= ((bound - d) as u64 / 10) as int * 10);
            assert(((bound - d) as u64 / 10) as int * 10 <= (bound - d) as int);
        }
        m = m * 10 + d;
        i = i + 1;
    }
    proof {
        assert(s@.subrange(i as int, s@.len() as int).len() == 0);
    }
    Some(m)
}

/// Parses a decimal integer, succeeding exactly when the text is a
/// well-formed literal whose value fits in an `i64`.
pub fn parse_i64(s: &Vec<char>) -> (r: Option<i64>)
    ensures
        match parse_int_spec(s@) {
            Some(n) => if i64::MIN <= n <= i64::MAX {
                r == Some(n as i64)
            } else {
                r is None
            },
            None => r is None,
        },
{
    if s.len() == 0 {
        return None;
    }
    let neg = s[0] == '-';
    let start: usize = if neg {
        1
    } else {
        0
    };
    if s.len() == start {
        return None;
    }
    let mut j: usize = start;
    while j < s.len()
        invariant
            start <= j <= s@.len(),
            s@.len() > start,
            neg == (s@[0] == '-'),
            start == if neg { 1int } else { 0int },
            all_digits(s@.subrange(start as int, j as int)),
        decreases s@.len() - j,
    {
        let c = s[j];
        if c < '0' || c > '9' {
            proof {
                let body = s@.subrange(start as int, s@.len() as int);
                assert(body[j - start] == s@[j as int]);
                assert(!all_digits(body));
                if neg {
                    assert(s@.drop_first() =~= body);
                } else {
                    assert(body =~= s@);
                }
            }
            return None;
        }
        proof {
            assert(s@.subrange(start as int, j + 1 as int) =~= s@.subrange(
                start as int,
                j as int,
            ).push(s@[j as int]));
        }
        j = j + 1;
    }
    let ghost body = s@.subrange(start as int, s@.len() as int);
    proof {
        assert(body =~= s@.subrange(start as int, j as int));
        if neg {
            assert(s@.drop_first() =~= body);
        } else {
            assert(body =~= s@);
        }
    }
    if neg {
        // A magnitude of up to 2^63 is representable after negation.
        let bound: u64 = 9223372036854775808u64;
        match scan_digits(s, start, bound) {
            Some(m) => {
                if m == bound {
                    Some(i64::MIN)
                } else {
                    Some(-(m as i64))
                }
            },
            None => None,
        }
    } else {
        let bound: u64 = 9223372036854775807u64;
        match scan_digits(s, start, bound) {
            Some(m) => Some(m as i64),
            None => None,
        }
    }
}

/// The decimal digits of a non-negative value, most significant first.
pub open spec fn udigits(n: int) -> Seq<char>
    decreases n,
{
    if n < 10 {
        seq![digit_char(n)]
    } else {
        udigits(n / 10).push(digit_char(n % 10))
    }
}

/// The decimal rendering of an integer.
pub open spec fn render_int(n: int) -> Seq<char> {
    if n < 0 {
        seq!['-'] + udigits(-n)
    } else {
        udigits(n)
    }
}

fn digit_to_char(d: u64) -> (c: char)
    requires
        d <= 9,
    ensures
        c == digit_char(d as int),
{
    if d == 0 {
        '0'
    } else if d == 1 {
        '1'
    } else if d == 2 {
        '2'
    } else if d == 3 {
        '3'
    } else if d == 4 {
        '4'
    } else if d == 5 {
        '5'
    } else if d == 6 {
        '6'
    } else if d == 7 {
        '7'
    } else if d == 8 {
        '8'
    } else {
        '9'
    }
}

fn push_udigits(m: u64, out: &mut String)
    ensures
        final(out)@ == old(out)@ + udigits(m as int),
    decreases m,
{
    if m < 10 {
        out.push(digit_to_char(m));
        proof {
            assert(final(out)@ =~= old(out)@ + udigits(m as int));
        }
    } else {
        push_udigits(m / 10, out);
        out.push(digit_to_char(m % 10));
        proof {
            assert(final(out)@ =~= old(out)@ + udigits(m as int));
        }
    }
}

/// Renders an `i64` in decimal, matching `render_int`.
pub fn render_i64(n: i64) -> (s: String)
    ensures
        s@ == render_int(n as int),
{
    let mut out = String::new();
    if n < 0 {
        out.push('-');
        let m: u64 = if n == i64::MIN {
            9223372036854775808u64
        } else {
            (-n) as u64
        };
        push_udigits(m, &mut out);
        proof {
            assert(out@ =~= render_int(n as int));
        }
    } else {
        push_udigits(n as u64, &mut out);
        proof {
            assert(out@ =~= render_int(n as int));
        }
    }
    out
}

} // verus!


