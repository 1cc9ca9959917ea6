//! Parsing of the sysfs attributes of a u-dma-buf device: its total size,
//! written in decimal, and its physical address, written in hexadecimal
//! with a `0x` prefix. Surrounding white space is ignored.
use vstd::prelude::*;

verus! {

/// Why an attribute is not a valid unsigned integer.
#[derive(Clone, Copy, Debug, PartialEq, Eq, Structural)]
pub enum IntErrorKind {
    /// Nothing is left to parse.
    Empty,
    /// A character is not a digit of the radix.
    InvalidDigit,
    /// The value does not fit in the target type.
    PosOverflow,
}

/// Unicode white space, as `char::is_whitespace` decides it.
pub open spec fn is_white_space(c: char) -> bool {
    let v = c as u32;
    ||| 0x9 <= v <= 0xd
    ||| v == 0x20
    ||| v == 0x85
    ||| v == 0xa0
    ||| v == 0x1680
    ||| 0x2000 <= v <= 0x200a
    ||| v == 0x2028
    ||| v == 0x2029
    ||| v == 0x202f
    ||| v == 0x205f
    ||| v == 0x3000
}

/// `s` without its leading white space.
pub open spec fn trim_start(s: Seq<char>) -> Seq<char>
    decreases s.len(),
{
    if s.len() > 0 && is_white_space(s[0]) {
        trim_start(s.drop_first())
    } else {
        s
    }
}

/// `s` without its trailing white space.
pub open spec fn trim_end(s: Seq<char>) -> Seq<char>
    decreases s.len(),
{
    if s.len() > 0 && is_white_space(s.last()) {
        trim_end(s.drop_last())
    } else {
        s
    }
}

/// `s` without leading and trailing white space.
pub open spec fn trim(s: Seq<char>) -> Seq<char> {
    trim_end(trim_start(s))
}

/// `s` without every leading repetition of `0x`.
pub open spec fn strip_hex_prefixes(s: Seq<char>) -> Seq<char>
    decreases s.len(),
{
    if s.len() >= 2 && s[0] == '0' && s[1] == 'x' {
        strip_hex_prefixes(s.subrange(2, s.len() as int))
    } else {
        s
    }
}

/// The value of digit `c` in radix `radix` (at most 36), as
/// `char::to_digit` gives it.
pub open spec fn digit_value(c: char, radix: u32) -> Option<nat> {
    let v = c as u32;
    let d: int = if 0x30 <= v <= 0x39 {
        v - 0x30
    } else if 0x61 <= v <= 0x7a {
        v - 0x61 + 10
    } else if 0x41 <= v <= 0x5a {
        v - 0x41 + 10
    } else {
        radix as int
    };
    if d < radix {
        Some(d as nat)
    } else {
        None
    }
}

/// Reads the digits `ds` from left to right onto `acc`, stopping at the
/// first character that is not a digit or at the first prefix whose value
/// exceeds `max`.
pub open spec fn scan_digits(ds: Seq<char>, acc: nat, radix: u32, max: nat) -> Result<
    nat,
    IntErrorKind,
>
    decreases ds.len(),
{
    if ds.len() == 0 {
        Ok(acc)
    } else {
        match digit_value(ds[0], radix) {
            None => Err(IntErrorKind::InvalidDigit),
            Some(d) => {
                let v = (acc * radix + d) as nat;
                if v > max {
                    Err(IntErrorKind::PosOverflow)
                } else {
                    scan_digits(ds.drop_first(), v, radix, max)
                }
            },
        }
    }
}

/// An unsigned integer in radix `radix` with an optional leading `+`, at
/// most `max`, as `from_str_radix` of the unsigned integer types reads it.
pub open spec fn parse_unsigned(s: Seq<char>, radix: u32, max: nat) -> Result<nat, IntErrorKind> {
    if s.len() == 0 {
        Err(IntErrorKind::Empty)
    } else if (s[0] == '+' || s[0] == '-') && s.len() == 1 {
        Err(IntErrorKind::InvalidDigit)
    } else if s[0] == '+' {
        scan_digits(s.drop_first(), 0, radix, max)
    } else {
        scan_digits(s, 0, radix, max)
    }
}

/// A successful scan never exceeds the bound.
pub proof fn lemma_scan_bounded(ds: Seq<char>, acc: nat, radix: u32, max: nat)
    requires
        acc <= max,
    ensures
        scan_digits(ds, acc, radix, max) matches Ok(v) ==> v <= max,
    decreases ds.len(),
{
    if ds.len() > 0 {
        if let Some(d) = digit_value(ds[0], radix) {
            let v = (acc * radix + d) as nat;
            if v <= max {
                lemma_scan_bounded(ds.drop_first(), v, radix, max);
            }
        }
    }
}

/// A successful parse never exceeds the bound.
pub proof fn lemma_parse_bounded(s: Seq<char>, radix: u32, max: nat)
    ensures
        parse_unsigned(s, radix, max) matches Ok(v) ==> v <= max,
{
    if s.len() > 0 {
        lemma_scan_bounded(s.drop_first(), 0, radix, max);
        lemma_scan_bounded(s, 0, radix, max);
    }
}

/// The total size attribute: a decimal `usize` amid white space.
pub open spec fn spec_parse_size(content: Seq<char>) -> Result<nat, IntErrorKind> {
    parse_unsigned(trim(content), 10, usize::MAX as nat)
}

/// The physical address attribute: a hexadecimal `u64` amid white space,
/// after any number of `0x` prefixes.
pub open spec fn spec_parse_phys_addr(content: Seq<char>) -> Result<nat, IntErrorKind> {
    parse_unsigned(strip_hex_prefixes(trim(content)), 16, u64::MAX as nat)
}

/// The characters of `s`.
fn chars_of(s: &str) -> (v: Vec<char>)
    ensures
        v@ == s@,
{
    let mut cs: Vec<char> = Vec::new();
    for c in it: s.chars()
        invariant
            cs@ == it.seq().take(it.index() as int),
    {
        cs.push(c);
    }
    cs
}

/// Whether `c` is Unicode white space.
fn white_space(c: char) -> (r: bool)
    ensures
        r == is_white_space(c),
{
    let v = c as u32;
    (0x9 <= v && v <= 0xd) || v == 0x20 || v == 0x85 || v == 0xa0 || v == 0x1680 || (0x2000 <= v
        && v <= 0x200a) || v == 0x2028 || v == 0x2029 || v == 0x202f || v == 0x205f || v == 0x3000
}

/// Bounds `(start, end)` of `cs` without leading and trailing white space.
fn trim_bounds(cs: &Vec<char>) -> (r: (usize, usize))
    ensures
        r.0 <= r.1 <= cs@.len(),
        cs@.subrange(r.0 as int, r.1 as int) == trim(cs@),
{
    let mut start: usize = 0;
    proof {
        assert(cs@.subrange(0, cs@.len() as int) =~= cs@);
    }
    while start < cs.len() && white_space(cs[start])
        invariant
            start <= cs@.len(),
            trim_start(cs@) == trim_start(cs@.subrange(start as int, cs@.len() as int)),
        decreases cs@.len() - start,
    {
        proof {
            let rest = cs@.subrange(start as int, cs@.len() as int);
            assert(rest.drop_first() =~= cs@.subrange(start + 1, cs@.len() as int));
        }
        start = start + 1;
    }
    let ghost front = cs@.subrange(start as int, cs@.len() as int);
    proof {
        assert(trim_start(front) == front);
    }
    let mut end: usize = cs.len();
    while end > start && white_space(cs[end - 1])
        invariant
            start <= end <= cs@.len(),
            trim_end(front) == trim_end(cs@.subrange(start as int, end as int)),
        decreases end - start,
    {
        proof {
            let rest = cs@.subrange(start as int, end as int);
            assert(rest.drop_last() =~= cs@.subrange(start as int, end - 1));
        }
        end = end - 1;
    }
    proof {
        let rest = cs@.subrange(start as int, end as int);
        assert(trim_end(rest) == rest);
    }
    (start, end)
}

/// Index of the first character of `cs[start..end]` after all leading
/// `0x` prefixes.
fn skip_hex_prefixes(cs: &Vec<char>, start: usize, end: usize) -> (r: usize)
    requires
        start <= end <= cs@.len(),
    ensures
        start <= r <= end,
        cs@.subrange(r as int, end as int) == strip_hex_prefixes(
            cs@.subrange(start as int, end as int),
        ),
{
    let mut i = start;
    while end - i >= 2 && cs[i] == '0' && cs[i + 1] == 'x'
        invariant
            start <= i <= end <= cs@.len(),
            strip_hex_prefixes(cs@.subrange(start as int, end as int)) == strip_hex_prefixes(
                cs@.subrange(i as int, end as int),
            ),
        decreases end - i,
    {
        proof {
            let rest = cs@.subrange(i as int, end as int);
            assert(rest.subrange(2, rest.len() as int) =~= cs@.subrange(i + 2, end as int));
        }
        i = i + 2;
    }
    i
}

/// The value of digit `c` in radix `radix`.
fn digit_of(c: char, radix: u32) -> (r: Option<u32>)
    requires
        2 <= radix <= 36,
    ensures
        r matches Some(d) ==> digit_value(c, radix) == Some(d as nat),
        r is None ==> digit_value(c, radix) is None,
{
    let v = c as u32;
    let d: u32 = if 0x30 <= v && v <= 0x39 {
        v - 0x30
    } else if 0x61 <= v && v <= 0x7a {
        v - 0x61 + 10
    } else if 0x41 <= v && v <= 0x5a {
        v - 0x41 + 10
    } else {
        radix
    };
    if d < radix {
        Some(d)
    } else {
        None
    }
}

/// Parses `cs[start..end]` as `from_str_radix` does for an unsigned type
/// whose largest value is `max`.
fn parse_range(cs: &Vec<char>, start: usize, end: usize, radix: u32, max: u64) -> (r: Result<
    u64,
    IntErrorKind,
>)
    requires
        start <= end <= cs@.len(),
        2 <= radix <= 36,
    ensures
        match parse_unsigned(cs@.subrange(start as int, end as int), radix, max as nat) {
            Ok(v) => r == Ok::<u64, IntErrorKind>(v as u64),
            Err(k) => r == Err::<u64, IntErrorKind>(k),
        },
{
    let ghost s = cs@.subrange(start as int, end as int);
    if start == end {
        return Err(IntErrorKind::Empty);
    }
    if (cs[start] == '+' || cs[start] == '-') && end - start == 1 {
        return Err(IntErrorKind::InvalidDigit);
    }
    let mut i = start;
    if cs[start] == '+' {
        i = start + 1;
        proof {
            assert(s.drop_first() =~= cs@.subrange(i as int, end as int));
        }
    }
    let mut acc: u64 = 0;
    while i < end
        invariant
            start <= i <= end <= cs@.len(),
            2 <= radix <= 36,
            acc <= max,
            s == cs@.subrange(start as int, end as int),
            parse_unsigned(s, radix, max as nat) == scan_digits(
                cs@.subrange(i as int, end as int),
                acc as nat,
                radix,
                max as nat,
            ),
        decreases end - i,
    {
        let ghost rest = cs@.subrange(i as int, end as int);
        proof {
            assert(rest.drop_first() =~= cs@.subrange(i + 1, end as int));
        }
        proof {
            assert(rest[0] == cs@[i as int]);
        }
        let d = match digit_of(cs[i], radix) {
            Some(d) => d,
            None => {
                return Err(IntErrorKind::InvalidDigit);
            },
        };
        proof {
            assert(acc * radix <= 0xffff_ffff_ffff_ffff * 36) by (nonlinear_arith)
                requires
                    acc <= 0xffff_ffff_ffff_ffff,
                    radix <= 36,
            ;
        }
        let v: u128 = acc as u128 * radix as u128 + d as u128;
        if v > max as u128 {
            return Err(IntErrorKind::PosOverflow);
        }
        acc = v as u64;
        i = i + 1;
    }
    Ok(acc)
}

/// Parses the total size attribute of a u-dma-buf device.
pub fn parse_size(content: &str) -> (r: Result<usize, IntErrorKind>)
    ensures
        match spec_parse_size(content@) {
            Ok(v) => r == Ok::<usize, IntErrorKind>(v as usize),
            Err(k) => r == Err::<usize, IntErrorKind>(k),
        },
{
    let cs = chars_of(content);
    let (start, end) = trim_bounds(&cs);
    proof {
        lemma_parse_bounded(trim(content@), 10, usize::MAX as nat);
    }
    match parse_range(&cs, start, end, 10, usize::MAX as u64) {
        Ok(v) => Ok(v as usize),
        Err(k) => Err(k),
    }
}

/// Parses the physical address attribute of a u-dma-buf device.
pub fn parse_phys_addr(content: &str) -> (r: Result<u64, IntErrorKind>)
    ensures
        match spec_parse_phys_addr(content@) {
            Ok(v) => r == Ok::<u64, IntErrorKind>(v as u64),
            Err(k) => r == Err::<u64, IntErrorKind>(k),
        },
{
    let cs = chars_of(content);
    let (start, end) = trim_bounds(&cs);
    let digits = skip_hex_prefixes(&cs, start, end);
    proof {
        assert(cs@.subrange(start as int, end as int).subrange(0, (end - start) as int)
            =~= cs@.subrange(start as int, end as int));
    }
    parse_range(&cs, digits, end, 16, u64::MAX)
}

} // verus!
