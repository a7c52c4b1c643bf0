//! Hexadecimal and decimal numerals: reading them from characters and writing
//! decimal numbers out.
use vstd::prelude::*;
use crate::text::push_char;

verus! {

/// Value of a hexadecimal digit (either case), or -1 for any other character.
pub open spec fn hex_digit_value(c: char) -> int {
    if '0' <= c && c <= '9' {
        (c as u32 - '0' as u32) as int
    } else if 'a' <= c && c <= 'f' {
        (c as u32 - 'a' as u32 + 10) as int
    } else if 'A' <= c && c <= 'F' {
        (c as u32 - 'A' as u32 + 10) as int
    } else {
        -1
    }
}

/// `s` is a non-empty run of hexadecimal digits.
pub open spec fn is_hex_numeral(s: Seq<char>) -> bool {
    s.len() > 0 && forall|i: int| 0 <= i < s.len() ==> hex_digit_value(#[trigger] s[i]) >= 0
}

/// The number that a run of hexadecimal digits denotes.
pub open spec fn hex_value(s: Seq<char>) -> int
    decreases s.len(),
{
    if s.len() == 0 {
        0
    } else {
        hex_value(s.drop_last()) * 16 + hex_digit_value(s.last())
    }
}

/// `s` without one leading `+`, the sign that an unsigned numeral may carry.
pub open spec fn unsigned_digits(s: Seq<char>) -> Seq<char> {
    if s.len() > 0 && s[0] == '+' {
        s.drop_first()
    } else {
        s
    }
}

fn digits_start(s: &Vec<char>, from: usize, to: usize) -> (r: usize)
    requires
        from <= to <= s@.len(),
    ensures
        from <= r <= to,
        s@.subrange(r as int, to as int) == unsigned_digits(s@.subrange(from as int, to as int)),
{
    if from < to && s[from] == '+' {
        assert(s@.subrange(from + 1, to as int) =~= s@.subrange(from as int, to as int).drop_first());
        from + 1
    } else {
        from
    }
}

/// What parsing `s` as a base-16 `u64` gives: its value, when `s` is a
/// numeral, with an optional leading `+`, whose value fits.
pub open spec fn hex_u64(s: Seq<char>) -> Option<u64> {
    let d = unsigned_digits(s);
    if is_hex_numeral(d) && hex_value(d) <= u64::MAX {
        Some(hex_value(d) as u64)
    } else {
        None
    }
}

proof fn lemma_hex_value_grows(s: Seq<char>, i: int)
    requires
        0 <= i <= s.len(),
        forall|j: int| 0 <= j < s.len() ==> hex_digit_value(#[trigger] s[j]) >= 0,
    ensures
        0 <= hex_value(s.take(i)) <= hex_value(s),
    decreases s.len(),
{
    if s.len() > 0 {
        if i == s.len() {
            assert(s.take(i) =~= s);
            lemma_hex_value_grows(s.drop_last(), i - 1);
            assert(s.drop_last().take(i - 1) =~= s.take(i - 1));
        } else {
            lemma_hex_value_grows(s.drop_last(), i);
            assert(s.drop_last().take(i) =~= s.take(i));
            assert(s.drop_last().take(s.len() - 1) =~= s.drop_last());
        }
    }
}

fn hex_digit(c: char) -> (r: Option<u64>)
    ensures
        match r {
            Some(d) => hex_digit_value(c) >= 0 && d == hex_digit_value(c),
            None => hex_digit_value(c) < 0,
        },
{
    if '0' <= c && c <= '9' {
        Some((c as u32 - '0' as u32) as u64)
    } else if 'a' <= c && c <= 'f' {
        Some((c as u32 - 'a' as u32 + 10) as u64)
    } else if 'A' <= c && c <= 'F' {
        Some((c as u32 - 'A' as u32 + 10) as u64)
    } else {
        None
    }
}

/// Parses `s[from..to]` as a base-16 `u64`.
pub fn parse_hex(s: &Vec<char>, from: usize, to: usize) -> (r: Option<u64>)
    requires
        from <= to <= s@.len(),
    ensures
        r == hex_u64(s@.subrange(from as int, to as int)),
{
    parse_hex_digits(s, digits_start(s, from, to), to)
}

fn parse_hex_digits(s: &Vec<char>, from: usize, to: usize) -> (r: Option<u64>)
    requires
        from <= to <= s@.len(),
    ensures
        ({
            let t = s@.subrange(from as int, to as int);
            r == if is_hex_numeral(t) && hex_value(t) <= u64::MAX {
                Some(hex_value(t) as u64)
            } else {
                None
            }
        }),
{
    let ghost t = s@.subrange(from as int, to as int);
    if from == to {
        return None;
    }
    let mut acc: u64 = 0;
    let mut i = from;
    let mut fits = true;
    while i < to
        invariant
            from <= i <= to <= s@.len(),
            t == s@.subrange(from as int, to as int),
            forall|j: int| 0 <= j < i - from ==> hex_digit_value(#[trigger] t[j]) >= 0,
            fits ==> acc == hex_value(t.take(i - from)),
            !fits ==> hex_value(t.take(i - from)) > u64::MAX,
        decreases to - i,
    {
        let ghost k = i - from;
        assert(t.take(k + 1).drop_last() =~= t.take(k));
        assert(t[k] == s@[i as int]);
        match hex_digit(s[i]) {
            None => {
                return None;
            },
            Some(d) => {
                proof {
                    lemma_hex_value_grows(t.take(k + 1), k);
                    assert(t.take(k + 1).take(k) =~= t.take(k));
                }
                if fits {
                    if acc > 0x0fff_ffff_ffff_ffff {
                        fits = false;
                    } else {
                        acc = acc * 16 + d;
                    }
                }
            },
        }
        i += 1;
    }
    assert(t.take(to - from) =~= t);
    if fits {
        Some(acc)
    } else {
        None
    }
}

/// `s` is a non-empty run of decimal digits.
pub open spec fn is_dec_numeral(s: Seq<char>) -> bool {
    s.len() > 0 && forall|i: int| 0 <= i < s.len() ==> '0' <= #[trigger] s[i] && s[i] <= '9'
}

/// The number that a run of decimal digits denotes.
pub open spec fn dec_value(s: Seq<char>) -> int
    decreases s.len(),
{
    if s.len() == 0 {
        0
    } else {
        dec_value(s.drop_last()) * 10 + (s.last() as u32 - '0' as u32)
    }
}

/// What parsing `s` as a decimal `u16` gives: its value, when `s` is a
/// numeral, with an optional leading `+`, whose value fits.
pub open spec fn dec_u16(s: Seq<char>) -> Option<u16> {
    let d = unsigned_digits(s);
    if is_dec_numeral(d) && dec_value(d) <= u16::MAX {
        Some(dec_value(d) as u16)
    } else {
        None
    }
}

proof fn lemma_dec_value_grows(s: Seq<char>, i: int)
    requires
        0 <= i <= s.len(),
        forall|j: int| 0 <= j < s.len() ==> '0' <= #[trigger] s[j] && s[j] <= '9',
    ensures
        0 <= dec_value(s.take(i)) <= dec_value(s),
    decreases s.len(),
{
    if s.len() > 0 {
        if i == s.len() {
            assert(s.take(i) =~= s);
            lemma_dec_value_grows(s.drop_last(), i - 1);
            assert(s.drop_last().take(i - 1) =~= s.take(i - 1));
        } else {
            lemma_dec_value_grows(s.drop_last(), i);
            assert(s.drop_last().take(i) =~= s.take(i));
            assert(s.drop_last().take(s.len() - 1) =~= s.drop_last());
        }
    }
}

/// Parses `s[from..to]` as a decimal `u16`.
pub fn parse_dec_u16(s: &Vec<char>, from: usize, to: usize) -> (r: Option<u16>)
    requires
        from <= to <= s@.len(),
    ensures
        r == dec_u16(s@.subrange(from as int, to as int)),
{
    parse_dec_digits(s, digits_start(s, from, to), to)
}

fn parse_dec_digits(s: &Vec<char>, from: usize, to: usize) -> (r: Option<u16>)
    requires
        from <= to <= s@.len(),
    ensures
        ({
            let t = s@.subrange(from as int, to as int);
            r == if is_dec_numeral(t) && dec_value(t) <= u16::MAX {
                Some(dec_value(t) as u16)
            } else {
                None
            }
        }),
{
    let ghost t = s@.subrange(from as int, to as int);
    if from == to {
        return None;
    }
    let mut acc: u32 = 0;
    let mut i = from;
    while i < to
        invariant
            from <= i <= to <= s@.len(),
            t == s@.subrange(from as int, to as int),
            forall|j: int| 0 <= j < i - from ==> '0' <= #[trigger] t[j] && t[j] <= '9',
            acc == dec_value(t.take(i - from)),
            acc <= u16::MAX,
        decreases to - i,
    {
        let ghost k = i - from;
        assert(t.take(k + 1).drop_last() =~= t.take(k));
        assert(t[k] == s@[i as int]);
        let c = s[i];
        if !('0' <= c && c <= '9') {
            return None;
        }
        acc = acc * 10 + (c as u32 - '0' as u32);
        if acc > 0xffff {
            proof {
                if is_dec_numeral(t) {
                    lemma_dec_value_grows(t, k + 1);
                }
            }
            return None;
        }
        i += 1;
    }
    assert(t.take(to - from) =~= t);
    Some(acc as u16)
}

/// The decimal digit character for `d < 10`.
pub open spec fn digit_char(d: nat) -> char {
    seq!['0', '1', '2', '3', '4', '5', '6', '7', '8', '9'][d as int]
}

fn digit(d: u64) -> (c: char)
    requires
        d < 10,
    ensures
        c == digit_char(d as nat),
{
    match d {
        0 => '0',
        1 => '1',
        2 => '2',
        3 => '3',
        4 => '4',
        5 => '5',
        6 => '6',
        7 => '7',
        8 => '8',
        _ => '9',
    }
}

/// The decimal numeral of `n`, without leading zeros.
pub open spec fn decimal(n: nat) -> Seq<char>
    decreases n,
{
    if n < 10 {
        seq![digit_char(n)]
    } else {
        decimal(n / 10).push(digit_char(n % 10))
    }
}

/// Appends the decimal numeral of `n` to `out`.
pub fn push_decimal(out: &mut String, n: u64)
    ensures
        final(out)@ == old(out)@ + decimal(n as nat),
    decreases n,
{
    if n >= 10 {
        push_decimal(out, n / 10);
    }
    let d = n % 10;
    push_char(out, digit(d));
}

} // verus!
