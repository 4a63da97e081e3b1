//! Building blocks of the message-bus wire format: canonical decimal
//! numbers and canonically escaped JSON strings, each with an exact
//! description of the text it produces, a parser, and proofs that the
//! text determines the value.

use vstd::prelude::*;

verus! {

/// Relies on `String::push`: appends the given character to the end of
/// the string.
pub assume_specification[ String::push ](s: &mut String, ch: char)
    ensures
        final(s)@ == old(s)@.push(ch),
;

/// Relies on `char::from_u32`: yields the character with the given code
/// point; every value below 0xD800 is a valid code point.
pub assume_specification[ char::from_u32 ](i: u32) -> (r: Option<char>)
    ensures
        r matches Some(c) ==> c as u32 == i,
        i < 0xD800 ==> r is Some,
;

// ---------------------------------------------------------------------
// Decimal digits
// ---------------------------------------------------------------------

/// The ten decimal digit characters.
pub open spec fn is_digit(c: char) -> bool {
    ||| c == '0'
    ||| c == '1'
    ||| c == '2'
    ||| c == '3'
    ||| c == '4'
    ||| c == '5'
    ||| c == '6'
    ||| c == '7'
    ||| c == '8'
    ||| c == '9'
}

/// The value of a decimal digit character.
pub open spec fn digit_val(c: char) -> int
    recommends
        is_digit(c),
{
    if c == '0' {
        0
    } else if c == '1' {
        1
    } else if c == '2' {
        2
    } else if c == '3' {
        3
    } else if c == '4' {
        4
    } else if c == '5' {
        5
    } else if c == '6' {
        6
    } else if c == '7' {
        7
    } else if c == '8' {
        8
    } else {
        9
    }
}

/// The character of a decimal digit value.
pub open spec fn digit_char(d: int) -> char
    recommends
        0 <= d < 10,
{
    if d == 0 {
        '0'
    } else if d == 1 {
        '1'
    } else if d == 2 {
        '2'
    } else if d == 3 {
        '3'
    } else if d == 4 {
        '4'
    } else if d == 5 {
        '5'
    } else if d == 6 {
        '6'
    } else if d == 7 {
        '7'
    } else if d == 8 {
        '8'
    } else {
        '9'
    }
}

fn is_digit_exec(c: char) -> (b: bool)
    ensures
        b == is_digit(c),
{
    c == '0' || c == '1' || c == '2' || c == '3' || c == '4' || c == '5' || c == '6' || c == '7'
        || c == '8' || c == '9'
}

fn digit_val_exec(c: char) -> (d: u64)
    requires
        is_digit(c),
    ensures
        d == digit_val(c),
        d < 10,
{
    if c == '0' {
        0
    } else if c == '1' {
        1
    } else if c == '2' {
        2
    } else if c == '3' {
        3
    } else if c == '4' {
        4
    } else if c == '5' {
        5
    } else if c == '6' {
        6
    } else if c == '7' {
        7
    } else if c == '8' {
        8
    } else {
        9
    }
}

fn digit_char_exec(d: u64) -> (c: char)
    requires
        d < 10,
    ensures
        c == digit_char(d as int),
{
    if d == 0 {
        '0'
    } else if d == 1 {
        '1'
    } else if d == 2 {
        '2'
    } else if d == 3 {
        '3'
    } else if d == 4 {
        '4'
    } else if d == 5 {
        '5'
    } else if d == 6 {
        '6'
    } else if d == 7 {
        '7'
    } else if d == 8 {
        '8'
    } else {
        '9'
    }
}

// ---------------------------------------------------------------------
// Canonical decimal representation
// ---------------------------------------------------------------------

/// The canonical decimal text of a non-negative number: no sign, no
/// leading zeros (except for zero itself).
pub open spec fn dec_rep(n: nat) -> Seq<char>
    decreases n,
{
    if n < 10 {
        seq![digit_char(n as int)]
    } else {
        dec_rep(n / 10).push(digit_char((n % 10) as int))
    }
}

/// The canonical decimal text of an integer: a minus sign for negative
/// numbers, then the canonical text of the magnitude.
pub open spec fn int_rep(i: int) -> Seq<char> {
    if i >= 0 {
        dec_rep(i as nat)
    } else {
        seq!['-'] + dec_rep((-i) as nat)
    }
}

/// Every character of the sequence is a decimal digit.
pub open spec fn all_digits(s: Seq<char>) -> bool {
    forall|k: int| 0 <= k < s.len() ==> is_digit(#[trigger] s[k])
}

/// The number a sequence of digit characters denotes.
pub open spec fn dec_val(s: Seq<char>) -> int
    decreases s.len(),
{
    if s.len() == 0 {
        0
    } else {
        10 * dec_val(s.drop_last()) + digit_val(s.last())
    }
}

/// A sequence is the canonical text of some number: all digits, at least
/// one, and no leading zero unless it is just "0".
pub open spec fn canonical_digits(s: Seq<char>) -> bool {
    &&& s.len() >= 1
    &&& all_digits(s)
    &&& (s.len() > 1 ==> s[0] != '0')
}

/// A one-character digit text denotes the value of its digit.
pub proof fn lemma_dec_val_single(c: char)
    ensures
        dec_val(seq![c]) == digit_val(c),
{
    let s = seq![c];
    assert(s.drop_last() =~= Seq::<char>::empty());
    assert(dec_val(s.drop_last()) == 0);
    assert(s.last() == c);
}

/// The canonical text of a number consists of digits, denotes that
/// number, and starts with '0' only for zero itself.
pub proof fn lemma_dec_rep_props(n: nat)
    ensures
        canonical_digits(dec_rep(n)),
        dec_val(dec_rep(n)) == n,
        n >= 1 ==> dec_rep(n)[0] != '0',
        (n < 10 <==> dec_rep(n).len() == 1),
    decreases n,
{
    if n < 10 {
        assert(dec_rep(n) =~= seq![digit_char(n as int)]);
        lemma_dec_val_single(digit_char(n as int));
    } else {
        lemma_dec_rep_props(n / 10);
        let prefix = dec_rep(n / 10);
        let s = dec_rep(n);
        assert(s == prefix.push(digit_char((n % 10) as int)));
        assert(s.drop_last() =~= prefix);
        assert(s[0] == prefix[0]);
        assert(dec_val(s) == 10 * (n / 10) + (n % 10));
        assert(10 * (n / 10) + (n % 10) == n) by (nonlinear_arith);
    }
}

/// Digit text that does not start with '0' denotes a positive number.
pub proof fn lemma_dec_val_pos(s: Seq<char>)
    requires
        s.len() >= 1,
        all_digits(s),
        s[0] != '0',
    ensures
        dec_val(s) >= 1,
    decreases s.len(),
{
    if s.len() == 1 {
        assert(s =~= seq![s[0]]);
        lemma_dec_val_single(s[0]);
    } else {
        let prefix = s.drop_last();
        assert(prefix[0] == s[0]);
        assert(forall|k: int| 0 <= k < prefix.len() ==> prefix[k] == s[k]);
        lemma_dec_val_pos(prefix);
        assert(is_digit(s.last()));
        assert(dec_val(s) == 10 * dec_val(prefix) + digit_val(s.last()));
    }
}

/// Digit text denotes a non-negative number.
pub proof fn lemma_dec_val_nonneg(s: Seq<char>)
    requires
        all_digits(s),
    ensures
        dec_val(s) >= 0,
    decreases s.len(),
{
    if s.len() > 0 {
        lemma_dec_val_nonneg(s.drop_last());
    }
}

/// Canonical digit text is the canonical representation of its value.
pub proof fn lemma_canonical_digits_rep(s: Seq<char>)
    requires
        canonical_digits(s),
    ensures
        dec_val(s) >= 0,
        dec_rep(dec_val(s) as nat) == s,
    decreases s.len(),
{
    lemma_dec_val_nonneg(s);
    if s.len() == 1 {
        assert(s =~= seq![s[0]]);
        lemma_dec_val_single(s[0]);
        assert(dec_val(s) == digit_val(s[0]));
        assert(dec_rep(dec_val(s) as nat) =~= seq![digit_char(digit_val(s[0]))]);
        assert(digit_char(digit_val(s[0])) == s[0]);
        assert(dec_rep(dec_val(s) as nat) =~= s);
    } else {
        let prefix = s.drop_last();
        assert(prefix[0] == s[0]);
        assert(all_digits(prefix)) by {
            assert(forall|k: int| 0 <= k < prefix.len() ==> prefix[k] == s[k]);
        }
        lemma_canonical_digits_rep(prefix);
        lemma_dec_val_pos(prefix);
        let v = dec_val(s);
        let vp = dec_val(prefix);
        let d = digit_val(s.last());
        assert(v == 10 * vp + d);
        assert(v >= 10) by (nonlinear_arith)
            requires
                vp >= 1,
                d >= 0,
                v == 10 * vp + d,
        ;
        assert(v / 10 == vp && v % 10 == d) by (nonlinear_arith)
            requires
                v == 10 * vp + d,
                0 <= d < 10,
                vp >= 0,
        ;
        assert(dec_rep(v as nat) == dec_rep(vp as nat).push(digit_char(d)));
        assert(digit_char(digit_val(s.last())) == s.last());
        assert(dec_rep(v as nat) =~= s);
    }
}

// ---------------------------------------------------------------------
// Emitting numbers
// ---------------------------------------------------------------------

/// Appends the canonical decimal text of `n`.
fn push_u64(n: u64, out: &mut String)
    ensures
        final(out)@ == old(out)@ + dec_rep(n as nat),
    decreases n,
{
    if n < 10 {
        out.push(digit_char_exec(n));
        proof {
            assert(out@ =~= old(out)@ + dec_rep(n as nat));
        }
    } else {
        proof {
            assert(n / 10 < n) by (nonlinear_arith)
                requires
                    n >= 10,
            ;
        }
        push_u64(n / 10, out);
        out.push(digit_char_exec(n % 10));
        proof {
            assert(out@ =~= old(out)@ + dec_rep(n as nat));
        }
    }
}

// ---------------------------------------------------------------------
// Parsing numbers
// ---------------------------------------------------------------------

/// A digit run bounded by a non-digit matches the canonical text of at
/// most one number, and only as the whole run.
proof fn lemma_match_digit_run(vs: Seq<char>, start: int, i: int, m: nat, e: int)
    requires
        0 <= start <= i <= vs.len(),
        start <= e <= vs.len(),
        all_digits(vs.subrange(start, i)),
        i == vs.len() || !is_digit(vs[i]),
        vs.subrange(start, e) == dec_rep(m),
        e == vs.len() || !is_digit(vs[e]),
    ensures
        e == i,
        i > start,
        vs.subrange(start, i) == dec_rep(m),
        dec_val(vs.subrange(start, i)) == m,
{
    lemma_dec_rep_props(m);
    let rep = dec_rep(m);
    assert(e - start == rep.len());
    if e < i {
        assert(is_digit(vs.subrange(start, i)[e - start]));
        assert(vs.subrange(start, i)[e - start] == vs[e]);
        assert(false);
    }
    if e > i {
        assert(i < vs.len());
        assert(is_digit(rep[i - start]));
        assert(rep[i - start] == vs.subrange(start, e)[i - start] == vs[i]);
        assert(false);
    }
}

/// Parses the canonical decimal text of a number, stopping at the first
/// non-digit. Yields the value and the position after the digits; refuses
/// an empty run, a leading zero, and a value beyond `u64`.
fn parse_digits(v: &Vec<char>, start: usize) -> (r: Option<(u64, usize)>)
    requires
        start <= v.len(),
    ensures
        r matches Some(p) ==> {
            &&& start < p.1 <= v@.len()
            &&& v@.subrange(start as int, p.1 as int) == dec_rep(p.0 as nat)
            &&& (p.1 == v@.len() || !is_digit(v@[p.1 as int]))
        },
        forall|m: u64, e: int|
            start <= e <= v@.len() && v@.subrange(start as int, e) == dec_rep(m as nat) && (e
                == v@.len() || !is_digit(v@[e])) ==> r == Some((m, e as usize)),
{
    let ghost vs = v@;
    let len = v.len();
    let mut i = start;
    let mut acc: u64 = 0;
    let mut overflow = false;
    loop
        invariant
            start <= i <= len,
            len == vs.len(),
            vs == v@,
            all_digits(vs.subrange(start as int, i as int)),
            !overflow ==> acc == dec_val(vs.subrange(start as int, i as int)),
            overflow ==> dec_val(vs.subrange(start as int, i as int)) > u64::MAX,
        ensures
            start <= i <= len,
            all_digits(vs.subrange(start as int, i as int)),
            !overflow ==> acc == dec_val(vs.subrange(start as int, i as int)),
            overflow ==> dec_val(vs.subrange(start as int, i as int)) > u64::MAX,
            i == len || !is_digit(vs[i as int]),
        decreases len - i,
    {
        if i == len {
            break ;
        }
        let c = v[i];
        if !is_digit_exec(c) {
            break ;
        }
        let d = digit_val_exec(c);
        let ghost run_old = vs.subrange(start as int, i as int);
        let ghost run_new = vs.subrange(start as int, i + 1 as int);
        proof {
            assert(run_new.drop_last() =~= run_old);
            assert(run_new.last() == vs[i as int]);
            assert(dec_val(run_new) == 10 * dec_val(run_old) + digit_val(c));
            lemma_dec_val_nonneg(run_old);
        }
        if overflow || acc > (u64::MAX - d) / 10 {
            proof {
                if !overflow {
                    assert(10 * (acc as int) + (d as int) > u64::MAX as int) by (nonlinear_arith)
                        requires
                            (acc as int) > ((u64::MAX as int) - (d as int)) / 10,
                            0 <= (d as int) && (d as int) < 10,
                    ;
                }
            }
            overflow = true;
        } else {
            proof {
                assert(10 * (acc as int) + (d as int) <= u64::MAX as int) by (nonlinear_arith)
                    requires
                        (acc as int) <= ((u64::MAX as int) - (d as int)) / 10,
                        0 <= (d as int) && (d as int) < 10,
                ;
            }
            acc = acc * 10 + d;
        }
        i += 1;
    }
    let lead_zero = i - start > 1 && v[start] == '0';
    let res: Option<(u64, usize)> = if i == start || overflow || lead_zero {
        None
    } else {
        Some((acc, i))
    };
    proof {
        let run = vs.subrange(start as int, i as int);
        if i != start && !overflow && !lead_zero {
            assert(canonical_digits(run));
            lemma_canonical_digits_rep(run);
        }
        assert forall|m: u64, e: int|
            start <= e <= vs.len() && vs.subrange(start as int, e) == dec_rep(m as nat) && (e
                == vs.len() || !is_digit(vs[e])) implies res == Some((m, e as usize)) by {
            lemma_match_digit_run(vs, start as int, i as int, m as nat, e);
            lemma_dec_rep_props(m as nat);
            if overflow {
                assert(false);
            }
            if lead_zero {
                assert(run[0] == vs[start as int]);
                assert(m >= 1 ==> dec_rep(m as nat)[0] != '0');
                assert(m == 0);
                assert(run.len() > 1);
                assert(false);
            }
        }
    }
    res
}

/// True iff the number fits a 64-bit signed integer.
pub open spec fn i64_in_range(i: int) -> bool {
    i64::MIN as int <= i <= i64::MAX as int
}

/// Parses the canonical decimal text of a signed number, stopping at the
/// first non-digit after the digits. Yields the value and the position
/// after it; refuses an empty run, a leading zero, a bare or signed zero
/// with a sign, and a value outside `i64`.
pub(crate) fn parse_i64(v: &Vec<char>, start: usize) -> (r: Option<(i64, usize)>)
    requires
        start <= v.len(),
    ensures
        r matches Some(p) ==> {
            &&& start < p.1 <= v@.len()
            &&& v@.subrange(start as int, p.1 as int) == int_rep(p.0 as int)
            &&& (p.1 == v@.len() || !is_digit(v@[p.1 as int]))
        },
        forall|m: i64, e: int|
            start <= e <= v@.len() && v@.subrange(start as int, e) == int_rep(m as int) && (e
                == v@.len() || !is_digit(v@[e])) ==> r == Some((m, e as usize)),
{
    let ghost vs = v@;
    if start < v.len() && v[start] == '-' {
        let digits = parse_digits(v, start + 1);
        let res: Option<(i64, usize)> = match digits {
            None => None,
            Some((mag, end)) => {
                if mag == 0 || mag > 9223372036854775808u64 {
                    None
                } else if mag == 9223372036854775808u64 {
                    Some((i64::MIN, end))
                } else {
                    Some((0i64 - mag as i64, end))
                }
            },
        };
        proof {
            if res is Some {
                let n = res->Some_0.0;
                let end = res->Some_0.1;
                let mag = digits->Some_0.0;
                assert(vs.subrange(start + 1 as int, end as int) == dec_rep(mag as nat));
                assert(vs.subrange(start as int, end as int) =~= seq!['-'] + vs.subrange(
                    start + 1 as int,
                    end as int,
                ));
                assert(int_rep(n as int) == seq!['-'] + dec_rep((-(n as int)) as nat));
                assert(-(n as int) == mag as int);
            }
            assert forall|m: i64, e: int|
                start <= e <= vs.len() && vs.subrange(start as int, e) == int_rep(m as int) && (e
                    == vs.len() || !is_digit(vs[e])) implies res == Some((m, e as usize)) by {
                if m >= 0 {
                    lemma_dec_rep_props(m as nat);
                    assert(vs.subrange(start as int, e)[0] == vs[start as int]);
                    assert(is_digit('-'));
                    assert(false);
                } else {
                    let mag0: u64 = (-(m as int)) as u64;
                    assert(int_rep(m as int) == seq!['-'] + dec_rep(mag0 as nat));
                    lemma_dec_rep_props(mag0 as nat);
                    assert(e - start == 1 + dec_rep(mag0 as nat).len());
                    assert(vs.subrange(start + 1 as int, e) =~= dec_rep(mag0 as nat)) by {
                        assert(forall|k: int|
                            0 <= k < e - start - 1 ==> #[trigger] vs.subrange(start + 1 as int, e)[k]
                                == vs.subrange(start as int, e)[k + 1]);
                    }
                    assert(digits == Some((mag0, e as usize)));
                    assert(mag0 >= 1) by {
                        lemma_dec_val_pos(dec_rep(mag0 as nat));
                    }
                }
            }
        }
        res
    } else {
        let digits = parse_digits(v, start);
        let res: Option<(i64, usize)> = match digits {
            None => None,
            Some((mag, end)) => {
                if mag > i64::MAX as u64 {
                    None
                } else {
                    Some((mag as i64, end))
                }
            },
        };
        proof {
            assert forall|m: i64, e: int|
                start <= e <= vs.len() && vs.subrange(start as int, e) == int_rep(m as int) && (e
                    == vs.len() || !is_digit(vs[e])) implies res == Some((m, e as usize)) by {
                if m < 0 {
                    assert(int_rep(m as int) == seq!['-'] + dec_rep((-(m as int)) as nat));
                    assert(vs.subrange(start as int, e)[0] == vs[start as int]);
                    assert(vs[start as int] == '-');
                    assert(false);
                } else {
                    assert(vs.subrange(start as int, e) == dec_rep(m as nat));
                    assert(digits == Some((m as u64, e as usize)));
                }
            }
        }
        res
    }
}

// ---------------------------------------------------------------------
// Hexadecimal digits
// ---------------------------------------------------------------------

/// The sixteen lowercase hexadecimal digit characters.
pub open spec fn is_hex(c: char) -> bool {
    ||| is_digit(c)
    ||| c == 'a'
    ||| c == 'b'
    ||| c == 'c'
    ||| c == 'd'
    ||| c == 'e'
    ||| c == 'f'
}

/// The value of a lowercase hexadecimal digit character.
pub open spec fn hex_val(c: char) -> int
    recommends
        is_hex(c),
{
    if is_digit(c) {
        digit_val(c)
    } else if c == 'a' {
        10
    } else if c == 'b' {
        11
    } else if c == 'c' {
        12
    } else if c == 'd' {
        13
    } else if c == 'e' {
        14
    } else {
        15
    }
}

/// The lowercase character of a hexadecimal digit value.
pub open spec fn hex_char(d: int) -> char
    recommends
        0 <= d < 16,
{
    if d < 10 {
        digit_char(d)
    } else if d == 10 {
        'a'
    } else if d == 11 {
        'b'
    } else if d == 12 {
        'c'
    } else if d == 13 {
        'd'
    } else if d == 14 {
        'e'
    } else {
        'f'
    }
}

fn is_hex_exec(c: char) -> (b: bool)
    ensures
        b == is_hex(c),
{
    is_digit_exec(c) || c == 'a' || c == 'b' || c == 'c' || c == 'd' || c == 'e' || c == 'f'
}

fn hex_val_exec(c: char) -> (d: u32)
    requires
        is_hex(c),
    ensures
        d == hex_val(c),
        d < 16,
{
    if is_digit_exec(c) {
        digit_val_exec(c) as u32
    } else if c == 'a' {
        10
    } else if c == 'b' {
        11
    } else if c == 'c' {
        12
    } else if c == 'd' {
        13
    } else if c == 'e' {
        14
    } else {
        15
    }
}

fn hex_char_exec(d: u32) -> (c: char)
    requires
        d < 16,
    ensures
        c == hex_char(d as int),
{
    if d < 10 {
        digit_char_exec(d as u64)
    } else if d == 10 {
        'a'
    } else if d == 11 {
        'b'
    } else if d == 12 {
        'c'
    } else if d == 13 {
        'd'
    } else if d == 14 {
        'e'
    } else {
        'f'
    }
}

// ---------------------------------------------------------------------
// Canonical JSON string escaping
// ---------------------------------------------------------------------

/// Control characters: code points below U+0020, which JSON requires to
/// be escaped.
pub open spec fn is_ctl(c: char) -> bool {
    (c as u32) < 32
}

/// The canonical escape of one character: quote and backslash get a
/// backslash escape, control characters a lowercase `\u00` escape, and
/// every other character stands for itself.
pub open spec fn esc_char(c: char) -> Seq<char> {
    if c == '"' {
        seq!['\\', '"']
    } else if c == '\\' {
        seq!['\\', '\\']
    } else if is_ctl(c) {
        seq!['\\', 'u', '0', '0', hex_char(((c as u32) / 16) as int), hex_char(
            ((c as u32) % 16) as int,
        )]
    } else {
        seq![c]
    }
}

/// The canonical escape of a whole text.
pub open spec fn esc(s: Seq<char>) -> Seq<char>
    decreases s.len(),
{
    if s.len() == 0 {
        Seq::empty()
    } else {
        esc_char(s[0]) + esc(s.drop_first())
    }
}

/// Escaping distributes over concatenation.
pub proof fn lemma_esc_concat(a: Seq<char>, b: Seq<char>)
    ensures
        esc(a + b) == esc(a) + esc(b),
    decreases a.len(),
{
    if a.len() == 0 {
        assert(a + b =~= b);
        assert(esc(a) + esc(b) =~= esc(b));
    } else {
        assert((a + b).len() > 0);
        assert((a + b)[0] == a[0]);
        assert((a + b).drop_first() =~= a.drop_first() + b);
        lemma_esc_concat(a.drop_first(), b);
        assert(esc(a + b) =~= esc(a) + esc(b));
    }
}

/// Escaping one more character appends that character's escape.
pub proof fn lemma_esc_push(a: Seq<char>, c: char)
    ensures
        esc(a.push(c)) == esc(a) + esc_char(c),
{
    assert(a.push(c) =~= a + seq![c]);
    lemma_esc_concat(a, seq![c]);
    assert(seq![c][0] == c);
    assert(esc(seq![c]) == esc_char(c) + esc(seq![c].drop_first()));
    assert(seq![c].drop_first() =~= Seq::<char>::empty());
    assert(esc(Seq::<char>::empty()) == Seq::<char>::empty());
    assert(esc_char(c) + Seq::<char>::empty() =~= esc_char(c));
}

/// The escape of a character determines the character: no character's
/// escape is a proper prefix of a different character's escape.
proof fn lemma_esc_char_determined(a: char, b: char, x: Seq<char>, y: Seq<char>)
    requires
        esc_char(a) + x == esc_char(b) + y,
    ensures
        a == b,
        x == y,
{
    let ea = esc_char(a);
    let eb = esc_char(b);
    let s = ea + x;
    assert(s[0] == ea[0] && s[0] == eb[0]);
    if ea.len() >= 2 && eb.len() >= 2 {
        assert(s[1] == ea[1] && s[1] == eb[1]);
    }
    if a == '"' || a == '\\' || is_ctl(a) {
        assert(ea[0] == '\\');
        assert(eb[0] == '\\');
        assert(b == '"' || b == '\\' || is_ctl(b)) by {
            if b != '"' && b != '\\' && !is_ctl(b) {
                assert(eb[0] == b);
            }
        }
        if is_ctl(a) {
            assert(ea[1] == 'u');
            assert(eb[1] == 'u');
            assert(is_ctl(b)) by {
                if b == '"' {
                    assert(eb[1] == '"');
                } else if b == '\\' {
                    assert(eb[1] == '\\');
                }
            }
            let ca = a as u32;
            let cb = b as u32;
            assert(s[4] == ea[4] && s[4] == eb[4]);
            assert(s[5] == ea[5] && s[5] == eb[5]);
            assert(hex_char((ca / 16) as int) == hex_char((cb / 16) as int));
            assert(hex_char((ca % 16) as int) == hex_char((cb % 16) as int));
            assert(ca / 16 == cb / 16 && ca % 16 == cb % 16);
            assert(ca == cb) by (nonlinear_arith)
                requires
                    ca / 16 == cb / 16,
                    ca % 16 == cb % 16,
            ;
            vstd::utf8::char_u32_cast(a, ca);
            vstd::utf8::char_u32_cast(b, cb);
        } else if a == '"' {
            assert(ea[1] == '"');
            assert(b == '"') by {
                if b == '\\' {
                    assert(eb[1] == '\\');
                } else if is_ctl(b) {
                    assert(eb[1] == 'u');
                }
            }
        } else {
            assert(ea[1] == '\\');
            assert(b == '\\') by {
                if b == '"' {
                    assert(eb[1] == '"');
                } else if is_ctl(b) {
                    assert(eb[1] == 'u');
                }
            }
        }
    } else {
        assert(ea[0] == a);
        assert(b == a) by {
            if b == '"' || b == '\\' || is_ctl(b) {
                assert(eb[0] == '\\');
            } else {
                assert(eb[0] == b);
            }
        }
    }
    assert(ea == eb);
    assert(x =~= s.subrange(ea.len() as int, s.len() as int));
    assert(y =~= s.subrange(ea.len() as int, s.len() as int));
}

/// If the escape of `a` is a prefix of the quote-terminated escape of
/// `b`, then `a` is a prefix of `b` and the remaining text is the
/// quote-terminated escape of the rest of `b`.
pub(crate) proof fn lemma_esc_align(a: Seq<char>, b: Seq<char>, w: Seq<char>, t: Seq<char>)
    requires
        esc(a) + w == esc(b) + seq!['"'] + t,
    ensures
        exists|r: Seq<char>| b == #[trigger] (a + r) && w == esc(r) + seq!['"'] + t,
    decreases a.len(),
{
    if a.len() == 0 {
        let r = b;
        assert(b =~= a + r);
        assert(esc(a) =~= Seq::<char>::empty());
        assert(w =~= esc(r) + seq!['"'] + t);
        assert(b == a + r && w == esc(r) + seq!['"'] + t);
    } else {
        if b.len() == 0 {
            assert(esc(b) =~= Seq::<char>::empty());
            assert((esc(b) + seq!['"'] + t)[0] == '"');
            assert((esc(a) + w)[0] == esc_char(a[0])[0]);
            assert(esc_char(a[0])[0] != '"') by {
                if a[0] != '"' && a[0] != '\\' && !is_ctl(a[0]) {
                    assert(esc_char(a[0])[0] == a[0]);
                }
            }
            assert(false);
        } else {
            assert(esc(a) == esc_char(a[0]) + esc(a.drop_first()));
            assert(esc(b) == esc_char(b[0]) + esc(b.drop_first()));
            assert(esc_char(a[0]) + (esc(a.drop_first()) + w) =~= esc(a) + w);
            assert(esc_char(b[0]) + (esc(b.drop_first()) + seq!['"'] + t) =~= esc(b) + seq!['"']
                + t);
            lemma_esc_char_determined(
                a[0],
                b[0],
                esc(a.drop_first()) + w,
                esc(b.drop_first()) + seq!['"'] + t,
            );
            lemma_esc_align(a.drop_first(), b.drop_first(), w, t);
            let r = choose|r: Seq<char>|
                b.drop_first() == #[trigger] (a.drop_first() + r) && w == esc(r) + seq!['"'] + t;
            assert(b =~= seq![b[0]] + b.drop_first());
            assert(a =~= seq![a[0]] + a.drop_first());
            assert((seq![a[0]] + a.drop_first()) + r =~= seq![a[0]] + (a.drop_first() + r));
            assert(b == a + r && w == esc(r) + seq!['"'] + t);
        }
    }
}

/// Appends the canonical escape of the text.
pub fn push_escaped(s: &str, out: &mut String)
    ensures
        final(out)@ == old(out)@ + esc(s@),
{
    let n = s.unicode_len();
    let mut i: usize = 0;
    while i < n
        invariant
            i <= n,
            n == s@.len(),
            out@ == old(out)@ + esc(s@.subrange(0, i as int)),
        decreases n - i,
    {
        let c = s.get_char(i);
        if c == '"' {
            out.push('\\');
            out.push('"');
        } else if c == '\\' {
            out.push('\\');
            out.push('\\');
        } else if (c as u32) < 32 {
            out.push('\\');
            out.push('u');
            out.push('0');
            out.push('0');
            out.push(hex_char_exec((c as u32) / 16));
            out.push(hex_char_exec((c as u32) % 16));
        } else {
            out.push(c);
        }
        proof {
            lemma_esc_push(s@.subrange(0, i as int), c);
            assert(s@.subrange(0, i + 1 as int) =~= s@.subrange(0, i as int).push(c));
            assert(out@ =~= old(out)@ + esc(s@.subrange(0, i + 1 as int)));
        }
        i += 1;
    }
    proof {
        assert(s@.subrange(0, n as int) =~= s@);
    }
}

/// Whether a canonical string token (the closing quote, an escape, or a
/// plain character) begins at this position.
spec fn token_at(vs: Seq<char>, i: int) -> bool {
    &&& 0 <= i < vs.len()
    &&& {
        ||| vs[i] == '"'
        ||| (vs[i] == '\\' && i + 1 < vs.len() && (vs[i + 1] == '"' || vs[i + 1] == '\\'))
        ||| (vs[i] == '\\' && i + 5 < vs.len() && vs[i + 1] == 'u' && vs[i + 2] == '0' && vs[i + 3]
            == '0' && (vs[i + 4] == '0' || vs[i + 4] == '1') && is_hex(vs[i + 5]))
        ||| (vs[i] != '"' && vs[i] != '\\' && !is_ctl(vs[i]))
    }
}

/// Wherever a quote-terminated escape extends the processed prefix, a
/// canonical string token begins right after that prefix.
proof fn lemma_match_has_token(vs: Seq<char>, start: int, i: int, out: Seq<char>, s0: Seq<char>, e0: int)
    requires
        0 <= start <= i <= vs.len(),
        start <= e0 <= vs.len(),
        vs.subrange(start, i) == esc(out),
        vs.subrange(start, e0) == esc(s0) + seq!['"'],
    ensures
        token_at(vs, i),
{
    let w = vs.subrange(i, vs.len() as int);
    let t = vs.subrange(e0, vs.len() as int);
    assert(esc(out) + w =~= vs.subrange(start, vs.len() as int));
    assert(esc(s0) + seq!['"'] + t =~= vs.subrange(start, vs.len() as int));
    lemma_esc_align(out, s0, w, t);
    let r = choose|r: Seq<char>| s0 == #[trigger] (out + r) && w == esc(r) + seq!['"'] + t;
    assert(w.len() >= 1);
    assert(i < vs.len());
    assert(forall|k: int| 0 <= k < w.len() ==> #[trigger] w[k] == vs[i + k]);
    if r.len() == 0 {
        assert(esc(r) =~= Seq::<char>::empty());
        assert(w[0] == '"');
        assert(token_at(vs, i));
    } else {
        let ec = esc_char(r[0]);
        assert(w == ec + (esc(r.drop_first()) + seq!['"'] + t)) by {
            assert(esc(r) == ec + esc(r.drop_first()));
            assert(ec + (esc(r.drop_first()) + seq!['"'] + t) =~= esc(r) + seq!['"'] + t);
        }
        assert(forall|k: int| 0 <= k < ec.len() ==> #[trigger] ec[k] == w[k]);
        assert(w.len() >= ec.len() + 1);
        if r[0] == '"' {
            assert(w[0] == '\\' && w[1] == '"');
            assert(token_at(vs, i));
        } else if r[0] == '\\' {
            assert(w[0] == '\\' && w[1] == '\\');
            assert(token_at(vs, i));
        } else if is_ctl(r[0]) {
            let code = r[0] as u32;
            assert(w[0] == '\\' && w[1] == 'u' && w[2] == '0' && w[3] == '0');
            assert(w[4] == hex_char((code / 16) as int));
            assert(w[5] == hex_char((code % 16) as int));
            assert(code / 16 < 2);
            assert(w[4] == '0' || w[4] == '1');
            assert(is_hex(w[5])) by {
                assert(0 <= code % 16 < 16);
            }
            assert(token_at(vs, i));
        } else {
            assert(w[0] == r[0]);
            assert(token_at(vs, i));
        }
    }
}

/// Parses a canonically escaped JSON string up to and including its
/// closing quote. Yields the unescaped text and the position after the
/// quote; refuses an unterminated string, a non-canonical escape, and a
/// bare control character.
pub(crate) fn parse_jstring(v: &Vec<char>, start: usize) -> (r: Option<(Vec<char>, usize)>)
    requires
        start <= v.len(),
    ensures
        r matches Some(p) ==> {
            &&& start <= p.1 <= v@.len()
            &&& v@.subrange(start as int, p.1 as int) == esc(p.0@) + seq!['"']
        },
        forall|s0: Seq<char>, e0: int|
            start <= e0 <= v@.len() && v@.subrange(start as int, e0) == esc(s0) + seq!['"'] ==> (
            r matches Some(p) && p.0@ == s0 && p.1 == e0),
{
    let ghost vs = v@;
    let len = v.len();
    let mut out: Vec<char> = Vec::new();
    let mut i = start;
    loop
        invariant
            start <= i <= len,
            len == vs.len(),
            vs == v@,
            vs.subrange(start as int, i as int) == esc(out@),
        decreases len - i,
    {
        if i == len {
            proof {
                assert forall|s0: Seq<char>, e0: int|
                    start <= e0 <= vs.len() && vs.subrange(start as int, e0) == esc(s0)
                        + seq!['"'] implies false by {
                    lemma_match_has_token(vs, start as int, i as int, out@, s0, e0);
                }
            }
            return None;
        }
        let c = v[i];
        if c == '"' {
            proof {
                assert(vs.subrange(start as int, i + 1 as int) =~= esc(out@) + seq!['"']);
                assert forall|s0: Seq<char>, e0: int|
                    start <= e0 <= vs.len() && vs.subrange(start as int, e0) == esc(s0)
                        + seq!['"'] implies out@ == s0 && i + 1 == e0 by {
                    let w = vs.subrange(i as int, vs.len() as int);
                    let t = vs.subrange(e0, vs.len() as int);
                    assert(esc(out@) + w =~= vs.subrange(start as int, vs.len() as int));
                    assert(esc(s0) + seq!['"'] + t =~= vs.subrange(start as int, vs.len() as int));
                    lemma_esc_align(out@, s0, w, t);
                    let r = choose|r: Seq<char>|
                        s0 == #[trigger] (out@ + r) && w == esc(r) + seq!['"'] + t;
                    assert(w[0] == vs[i as int]);
                    if r.len() > 0 {
                        assert(w == esc_char(r[0]) + (esc(r.drop_first()) + seq!['"'] + t)) by {
                            assert(esc(r) == esc_char(r[0]) + esc(r.drop_first()));
                            assert(esc_char(r[0]) + (esc(r.drop_first()) + seq!['"'] + t) =~= esc(
                                r,
                            ) + seq!['"'] + t);
                        }
                        assert(w[0] == esc_char(r[0])[0]);
                        assert(esc_char(r[0])[0] != '"') by {
                            if r[0] != '"' && r[0] != '\\' && !is_ctl(r[0]) {
                                assert(esc_char(r[0])[0] == r[0]);
                            }
                        }
                        assert(false);
                    }
                    assert(esc(r) =~= Seq::<char>::empty());
                    assert(s0 =~= out@);
                    assert(w == seq!['"'] + t);
                    assert(w.len() == 1 + t.len());
                }
            }
            return Some((out, i + 1));
        }
        if c == '\\' {
            let has2 = i + 1 < len;
            let c2 = if has2 {
                v[i + 1]
            } else {
                c
            };
            if has2 && c2 == '"' {
                let ghost pre = out@;
                out.push('"');
                proof {
                    lemma_esc_push(pre, '"');
                    assert(vs.subrange(start as int, i + 2 as int) =~= esc(pre) + seq!['\\', '"']);
                    assert(esc_char('"') =~= seq!['\\', '"']);
                    assert(vs.subrange(start as int, i + 2 as int) == esc(out@));
                }
                i = i + 2;
            } else if has2 && c2 == '\\' {
                let ghost pre = out@;
                out.push('\\');
                proof {
                    lemma_esc_push(pre, '\\');
                    assert(vs.subrange(start as int, i + 2 as int) =~= esc(pre) + seq!['\\', '\\']);
                    assert(esc_char('\\') =~= seq!['\\', '\\']);
                    assert(vs.subrange(start as int, i + 2 as int) == esc(out@));
                }
                i = i + 2;
            } else if has2 && c2 == 'u' && len - i >= 6 && v[i + 2] == '0' && v[i + 3] == '0' && (
            v[i + 4] == '0' || v[i + 4] == '1') && is_hex_exec(v[i + 5]) {
                let hi = hex_val_exec(v[i + 4]);
                let lo = hex_val_exec(v[i + 5]);
                let code: u32 = hi * 16 + lo;
                match char::from_u32(code) {
                    Some(dc) => {
                        let ghost pre = out@;
                        out.push(dc);
                        proof {
                            assert(code < 32);
                            assert(dc as u32 == code);
                            assert(is_ctl(dc));
                            assert(dc != '"' && dc != '\\') by {
                                assert('"' as u32 == 34);
                                assert('\\' as u32 == 92);
                            }
                            assert((code / 16) as int == hex_val(vs[i + 4 as int])
                                && (code % 16) as int == hex_val(vs[i + 5 as int]))
                                by (nonlinear_arith)
                                requires
                                    code == hex_val(vs[i + 4 as int]) * 16 + hex_val(
                                        vs[i + 5 as int],
                                    ),
                                    0 <= hex_val(vs[i + 5 as int]) < 16,
                                    0 <= hex_val(vs[i + 4 as int]) < 2,
                            ;
                            assert(hex_char(hex_val(vs[i + 4 as int])) == vs[i + 4 as int]);
                            assert(hex_char(hex_val(vs[i + 5 as int])) == vs[i + 5 as int]);
                            assert(esc_char(dc) =~= seq![
                                '\\',
                                'u',
                                '0',
                                '0',
                                vs[i + 4 as int],
                                vs[i + 5 as int],
                            ]);
                            lemma_esc_push(pre, dc);
                            assert(vs.subrange(start as int, i + 6 as int) =~= esc(pre)
                                + esc_char(dc));
                            assert(vs.subrange(start as int, i + 6 as int) == esc(out@));
                        }
                        i = i + 6;
                    },
                    None => {
                        proof {
                            assert(code < 0xD800);
                            assert(false);
                        }
                        return None;
                    },
                }
            } else {
                proof {
                    assert(!token_at(vs, i as int));
                    assert forall|s0: Seq<char>, e0: int|
                        start <= e0 <= vs.len() && vs.subrange(start as int, e0) == esc(s0)
                            + seq!['"'] implies false by {
                        lemma_match_has_token(vs, start as int, i as int, out@, s0, e0);
                    }
                }
                return None;
            }
        } else if (c as u32) < 32 {
            proof {
                assert(!token_at(vs, i as int));
                assert forall|s0: Seq<char>, e0: int|
                    start <= e0 <= vs.len() && vs.subrange(start as int, e0) == esc(s0)
                        + seq!['"'] implies false by {
                    lemma_match_has_token(vs, start as int, i as int, out@, s0, e0);
                }
            }
            return None;
        } else {
            let ghost pre = out@;
            out.push(c);
            proof {
                lemma_esc_push(pre, c);
                assert(esc_char(c) =~= seq![c]);
                assert(vs.subrange(start as int, i + 1 as int) =~= esc(pre) + seq![c]);
                assert(vs.subrange(start as int, i + 1 as int) == esc(out@));
            }
            i = i + 1;
        }
    }
}

/// The characters of a string, in order.
pub fn str_to_chars(s: &str) -> (v: Vec<char>)
    ensures
        v@ == s@,
{
    let n = s.unicode_len();
    let mut v: Vec<char> = Vec::new();
    let mut i: usize = 0;
    while i < n
        invariant
            i <= n,
            n == s@.len(),
            v@ == s@.subrange(0, i as int),
        decreases n - i,
    {
        v.push(s.get_char(i));
        proof {
            assert(v@ =~= s@.subrange(0, i + 1 as int));
        }
        i += 1;
    }
    proof {
        assert(s@.subrange(0, n as int) =~= s@);
    }
    v
}

/// A string holding exactly these characters.
pub fn chars_to_string(v: &Vec<char>) -> (s: String)
    ensures
        s@ == v@,
{
    let mut s = String::new();
    let mut i: usize = 0;
    while i < v.len()
        invariant
            i <= v.len(),
            s@ == v@.subrange(0, i as int),
        decreases v.len() - i,
    {
        s.push(v[i]);
        proof {
            assert(s@ =~= v@.subrange(0, i + 1 as int));
        }
        i += 1;
    }
    proof {
        assert(v@.subrange(0, v@.len() as int) =~= v@);
    }
    s
}

/// Appends the canonical decimal text of `i`.
pub fn push_i64(i: i64, out: &mut String)
    ensures
        final(out)@ == old(out)@ + int_rep(i as int),
{
    if i >= 0 {
        push_u64(i as u64, out);
    } else if i == i64::MIN {
        out.push('-');
        push_u64(9223372036854775808u64, out);
        proof {
            assert(out@ =~= old(out)@ + int_rep(i as int));
        }
    } else {
        out.push('-');
        push_u64((-i) as u64, out);
        proof {
            assert(out@ =~= old(out)@ + int_rep(i as int));
        }
    }
}


/// Signed canonical number text bounded by a non-digit matches at most
/// one number, and only with one end position.
pub proof fn lemma_int_terminated_unique(
    vs: Seq<char>,
    start: int,
    m1: int,
    e1: int,
    m2: int,
    e2: int,
)
    requires
        0 <= start <= e1 <= vs.len(),
        start <= e2 <= vs.len(),
        vs.subrange(start, e1) == int_rep(m1),
        vs.subrange(start, e2) == int_rep(m2),
        e1 == vs.len() || !is_digit(vs[e1]),
        e2 == vs.len() || !is_digit(vs[e2]),
    ensures
        m1 == m2,
        e1 == e2,
{
    lemma_dec_rep_props((if m1 >= 0 { m1 } else { -m1 }) as nat);
    lemma_dec_rep_props((if m2 >= 0 { m2 } else { -m2 }) as nat);
    if m1 >= 0 && m2 >= 0 {
        assert(all_digits(vs.subrange(start, e1)));
        lemma_match_digit_run(vs, start, e1, m2 as nat, e2);
        assert(dec_val(vs.subrange(start, e1)) == m1) by {
            lemma_dec_rep_props(m1 as nat);
        }
    } else if m1 < 0 && m2 < 0 {
        let r1 = dec_rep((-m1) as nat);
        let r2 = dec_rep((-m2) as nat);
        assert(int_rep(m1) == seq!['-'] + r1);
        assert(int_rep(m2) == seq!['-'] + r2);
        assert((seq!['-'] + r1)[0] == '-');
        assert((seq!['-'] + r2)[0] == '-');
        assert(vs.subrange(start, e1).len() == e1 - start);
        assert(vs.subrange(start, e1).len() == 1 + r1.len());
        assert(vs.subrange(start, e1)[0] == '-');
        assert(vs.subrange(start, e2).len() == e2 - start);
        assert(vs.subrange(start, e2).len() == 1 + r2.len());
        assert(vs.subrange(start, e2)[0] == '-');
        assert(vs.subrange(start + 1, e1) =~= r1) by {
            assert(forall|k: int|
                0 <= k < e1 - start - 1 ==> #[trigger] vs.subrange(start + 1, e1)[k] == vs.subrange(
                    start,
                    e1,
                )[k + 1]);
        }
        assert(vs.subrange(start + 1, e2) =~= r2) by {
            assert(forall|k: int|
                0 <= k < e2 - start - 1 ==> #[trigger] vs.subrange(start + 1, e2)[k] == vs.subrange(
                    start,
                    e2,
                )[k + 1]);
        }
        assert(all_digits(vs.subrange(start + 1, e1)));
        lemma_match_digit_run(vs, start + 1, e1, (-m2) as nat, e2);
        assert(dec_val(vs.subrange(start + 1, e1)) == -m1) by {
            lemma_dec_rep_props((-m1) as nat);
        }
    } else if m1 >= 0 {
        assert(vs.subrange(start, e1)[0] == dec_rep(m1 as nat)[0]);
        assert(vs.subrange(start, e2)[0] == '-');
        assert(is_digit(vs[start]));
        assert(false);
    } else {
        assert(vs.subrange(start, e2)[0] == dec_rep(m2 as nat)[0]);
        assert(vs.subrange(start, e1)[0] == '-');
        assert(is_digit(vs[start]));
        assert(false);
    }
}

/// Consumes an expected literal at `start`: succeeds exactly where the
/// text carries the literal.
pub fn eat_lit(v: &Vec<char>, start: usize, lit: &str) -> (r: Option<usize>)
    requires
        start <= v.len(),
    ensures
        r matches Some(end) ==> {
            &&& end == start + lit@.len()
            &&& end <= v@.len()
            &&& v@.subrange(start as int, end as int) == lit@
        },
        (start + lit@.len() <= v@.len() && v@.subrange(
            start as int,
            start as int + lit@.len() as int,
        ) == lit@) ==> r is Some,
{
    let n = lit.unicode_len();
    let len = v.len();
    if n > len - start {
        return None;
    }
    let mut j: usize = 0;
    while j < n
        invariant
            j <= n,
            n == lit@.len(),
            len == v@.len(),
            start + n <= len,
            forall|k: int| 0 <= k < j ==> v@[start + k] == #[trigger] lit@[k],
        decreases n - j,
    {
        if v[start + j] != lit.get_char(j) {
            proof {
                if v@.subrange(start as int, start as int + lit@.len() as int) == lit@ {
                    assert(v@.subrange(start as int, start as int + lit@.len() as int)[j as int]
                        == v@[start + j]);
                    assert(false);
                }
            }
            return None;
        }
        j += 1;
    }
    proof {
        assert(v@.subrange(start as int, start as int + n as int) =~= lit@);
    }
    Some(start + n)
}

} // verus!
