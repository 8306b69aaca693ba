//! Byte-count values: parsing human-readable size strings such as `2GiB`,
//! `500MB` or `1024`, and scaling a byte count back into a unit table for
//! display.

use vstd::prelude::*;
use vstd::arithmetic::power::pow;

verus! {

/// An exact, non-negative byte count. Unit tables are used only when parsing
/// or displaying; the stored value is always plain bytes.
#[derive(Copy, Clone, Eq, PartialEq, Debug, Structural)]
pub struct Datasize {
    pub value: u64,
}

/// The two unit families a size string or a rendered size can use: decimal
/// suffixes scale by 1000, the two binary forms scale by 1024.
#[derive(Copy, Clone, Eq, PartialEq, Debug, Structural)]
pub enum DatasizeFormat {
    Dec,
    Bin,
    BinIec,
}

pub open spec fn is_digit(c: char) -> bool {
    '0' <= c && c <= '9'
}

pub open spec fn digit_val(c: char) -> nat {
    (c as nat - '0' as nat) as nat
}

/// The number written by a sequence of decimal digits, most significant first.
pub open spec fn digits_val(s: Seq<char>) -> nat
    decreases s.len(),
{
    if s.len() == 0 {
        0
    } else {
        digits_val(s.drop_last()) * 10 + digit_val(s.last())
    }
}

/// Length of the longest run of digits at the front of `s`.
pub open spec fn digit_prefix_len(s: Seq<char>) -> nat
    decreases s.len(),
{
    if s.len() == 0 || !is_digit(s[0]) {
        0
    } else {
        1 + digit_prefix_len(s.skip(1))
    }
}

/// Rank of a scaling prefix letter: K is 1, P is 5.
pub open spec fn rank_of(c: char) -> Option<nat> {
    if c == 'K' {
        Some(1nat)
    } else if c == 'M' {
        Some(2nat)
    } else if c == 'G' {
        Some(3nat)
    } else if c == 'T' {
        Some(4nat)
    } else if c == 'P' {
        Some(5nat)
    } else {
        None
    }
}

/// The multiplier a unit suffix stands for, or `None` when the suffix is not
/// part of the grammar. An empty suffix and a bare `B` both mean raw bytes;
/// `K`..`P` and `KiB`..`PiB` are powers of 1024; `KB`..`PB` are powers of 1000.
pub open spec fn unit_factor(u: Seq<char>) -> Option<nat> {
    if u.len() == 0 {
        Some(1nat)
    } else if u.len() == 1 && u[0] == 'B' {
        Some(1nat)
    } else if u.len() == 1 && rank_of(u[0]).is_some() {
        Some(pow(1024, rank_of(u[0]).unwrap()) as nat)
    } else if u.len() == 2 && rank_of(u[0]).is_some() && u[1] == 'B' {
        Some(pow(1000, rank_of(u[0]).unwrap()) as nat)
    } else if u.len() == 3 && rank_of(u[0]).is_some() && u[1] == 'i' && u[2] == 'B' {
        Some(pow(1024, rank_of(u[0]).unwrap()) as nat)
    } else {
        None
    }
}

/// The byte count a size string denotes: a non-empty digit prefix times the
/// factor of the (possibly empty) unit suffix, or `None` when the string does
/// not match the grammar.
pub open spec fn parse_spec(s: Seq<char>) -> Option<nat> {
    let k = digit_prefix_len(s);
    if k == 0 {
        None
    } else {
        match unit_factor(s.skip(k as int)) {
            Some(f) => Some(digits_val(s.take(k as int)) * f),
            None => None,
        }
    }
}

/// Whether a string matches the size grammar `<digits>[<unit>]`, whatever the
/// magnitude of the number it writes.
pub open spec fn matches_grammar(s: Seq<char>) -> bool {
    parse_spec(s).is_some()
}

proof fn lemma_digit_prefix_len_characterized(s: Seq<char>, k: nat)
    requires
        k <= s.len(),
        forall|j: int| 0 <= j < k ==> is_digit(s[j]),
        k == s.len() || !is_digit(s[k as int]),
    ensures
        digit_prefix_len(s) == k,
    decreases s.len(),
{
    if k == 0 {
    } else {
        lemma_digit_prefix_len_characterized(s.skip(1), (k - 1) as nat);
    }
}

/// A digit string that already exceeds `u64::MAX` only grows when more digits
/// follow it.
proof fn lemma_digits_val_extend(s: Seq<char>, j: int, k: int)
    requires
        0 <= j <= k <= s.len(),
    ensures
        digits_val(s.take(j)) <= digits_val(s.take(k)),
    decreases k - j,
{
    if j < k {
        lemma_digits_val_extend(s, j, k - 1);
        assert(s.take(k).drop_last() =~= s.take(k - 1));
        assert(digits_val(s.take(k)) == digits_val(s.take(k - 1)) * 10 + digit_val(
            s.take(k).last(),
        ));
    }
}

impl Datasize {
    pub fn new(bytes: u64) -> (r: Self)
        ensures
            r.value == bytes,
    {
        Self { value: bytes }
    }

    /// Whether `s` matches the size grammar, whatever the magnitude of the
    /// number it writes.
    pub fn is_datasize_string(s: &String) -> (r: bool)
        ensures
            r == matches_grammar(s@),
    {
        let st: &str = s.as_str();
        let k = digit_run_len(st);
        if k == 0 {
            return false;
        }
        match suffix_factor(st, k) {
            Some(_) => true,
            None => false,
        }
    }

    /// Parses a size string into an exact byte count. Fails when the string
    /// does not match the grammar, or when the denoted count does not fit in
    /// 64 bits.
    pub fn try_from(s: &str) -> (r: Result<Self, ()>)
        ensures
            match r {
                Ok(d) => parse_spec(s@) == Some(d.value as nat),
                Err(_) => parse_spec(s@).is_none() || parse_spec(s@).unwrap() > u64::MAX,
            },
    {
        let k = digit_run_len(s);
        if k == 0 {
            return Err(());
        }
        let Some(f) = suffix_factor(s, k) else { return Err(()) };
        let Some(bytes) = digits_to_u64(s, k) else {
            proof {
                let dv = digits_val(s@.take(k as int));
                assert(dv * f >= dv * 1) by (nonlinear_arith)
                    requires
                        f >= 1,
                        dv >= 0,
                ;
            }
            return Err(());
        };
        if f != 0 && bytes > u64::MAX / f {
            proof {
                vstd::arithmetic::div_mod::lemma_fundamental_div_mod(u64::MAX as int, f as int);
                vstd::arithmetic::div_mod::lemma_mod_bound(u64::MAX as int, f as int);
            }
            assert(bytes * f > u64::MAX) by (nonlinear_arith)
                requires
                    bytes > u64::MAX as int / f as int,
                    f >= 1,
                    (u64::MAX as int / f as int) * f > u64::MAX - f,
            ;
            return Err(());
        }
        proof {
            vstd::arithmetic::div_mod::lemma_fundamental_div_mod(u64::MAX as int, f as int);
            vstd::arithmetic::div_mod::lemma_mod_bound(u64::MAX as int, f as int);
        }
        assert(bytes * f <= u64::MAX) by (nonlinear_arith)
            requires
                f >= 1,
                bytes <= u64::MAX as int / f as int,
                (u64::MAX as int / f as int) * f <= u64::MAX,
            ;
        Ok(Self { value: bytes * f })
    }
}

/// Length of the run of ASCII digits at the front of `s`.
fn digit_run_len(s: &str) -> (k: usize)
    ensures
        k == digit_prefix_len(s@),
        k <= s@.len(),
        forall|j: int| 0 <= j < k ==> is_digit(s@[j]),
{
    let n = s.unicode_len();
    let mut i: usize = 0;
    while i < n
        invariant
            0 <= i <= n,
            n == s@.len(),
            forall|j: int| 0 <= j < i ==> is_digit(s@[j]),
        decreases n - i,
    {
        let c = s.get_char(i);
        if !('0' <= c && c <= '9') {
            proof {
                lemma_digit_prefix_len_characterized(s@, i as nat);
            }
            return i;
        }
        i = i + 1;
    }
    proof {
        lemma_digit_prefix_len_characterized(s@, n as nat);
    }
    i
}

/// The multiplier of the unit suffix that starts at position `k`, or `None`
/// when those characters are not a unit of the grammar.
fn suffix_factor(s: &str, k: usize) -> (r: Option<u64>)
    requires
        k <= s@.len(),
    ensures
        match r {
            Some(f) => unit_factor(s@.skip(k as int)) == Some(f as nat) && f >= 1,
            None => unit_factor(s@.skip(k as int)).is_none(),
        },
{
    let n = s.unicode_len();
    let len = n - k;
    if len == 0 {
        return Some(1);
    }
    let c0 = s.get_char(k);
    assert(s@.skip(k as int)[0] == s@[k as int]);
    let rank: usize = if c0 == 'K' {
        1
    } else if c0 == 'M' {
        2
    } else if c0 == 'G' {
        3
    } else if c0 == 'T' {
        4
    } else if c0 == 'P' {
        5
    } else if c0 == 'B' && len == 1 {
        return Some(1);
    } else {
        return None;
    };
    if len == 1 {
        Some(pow_u64(1024, rank))
    } else if len == 2 {
        let c1 = s.get_char(k + 1);
        assert(s@.skip(k as int)[1] == s@[k + 1]);
        if c1 == 'B' {
            Some(pow_u64(1000, rank))
        } else {
            None
        }
    } else if len == 3 {
        let c1 = s.get_char(k + 1);
        let c2 = s.get_char(k + 2);
        assert(s@.skip(k as int)[1] == s@[k + 1]);
        assert(s@.skip(k as int)[2] == s@[k + 2]);
        if c1 == 'i' && c2 == 'B' {
            Some(pow_u64(1024, rank))
        } else {
            None
        }
    } else {
        None
    }
}

/// `base` raised to `e`, for the small bases and exponents of the unit
/// tables, where the result always fits.
fn pow_u64(base: u64, e: usize) -> (r: u64)
    requires
        1 <= base <= 1024,
        e <= 5,
    ensures
        r == pow(base as int, e as nat),
        1 <= r <= pow(1024, 5),
{
    proof {
        vstd::arithmetic::power::lemma_pow0(base as int);
        vstd::arithmetic::power::lemma_pow0(1024);
    }
    let mut r: u64 = 1;
    let mut i: usize = 0;
    while i < e
        invariant
            0 <= i <= e <= 5,
            base <= 1024,
            r == pow(base as int, i as nat),
            r <= pow(1024, i as nat),
        decreases e - i,
    {
        proof {
            assert(pow(base as int, (i + 1) as nat) == pow(base as int, i as nat) * base) by {
                vstd::arithmetic::power::lemma_pow1(base as int);
                vstd::arithmetic::power::lemma_pow_adds(base as int, i as nat, 1);
            }
            assert(pow(1024, (i + 1) as nat) == pow(1024, i as nat) * 1024) by {
                vstd::arithmetic::power::lemma_pow1(1024);
                vstd::arithmetic::power::lemma_pow_adds(1024, i as nat, 1);
            }
            vstd::arithmetic::power::lemma_pow_positive(1024, i as nat);
            assert(r * base <= pow(1024, i as nat) * 1024) by (nonlinear_arith)
                requires
                    r <= pow(1024, i as nat),
                    base <= 1024,
                    r >= 0,
                    pow(1024, i as nat) >= 1,
            ;
            assert(pow(1024, 5) == 1125899906842624) by {
                reveal_with_fuel(pow, 6);
            }
            vstd::arithmetic::power::lemma_pow_increases(1024, (i + 1) as nat, 5);
        }
        r = r * base;
        i = i + 1;
    }
    proof {
        vstd::arithmetic::power::lemma_pow_positive(base as int, e as nat);
        vstd::arithmetic::power::lemma_pow_increases(1024, e as nat, 5);
    }
    r
}

/// The number written by the digit run `s[..k]`, or `None` when it exceeds
/// `u64::MAX`.
fn digits_to_u64(s: &str, k: usize) -> (r: Option<u64>)
    requires
        k <= s@.len(),
        forall|j: int| 0 <= j < k ==> is_digit(s@[j]),
    ensures
        match r {
            Some(v) => v == digits_val(s@.take(k as int)),
            None => digits_val(s@.take(k as int)) > u64::MAX,
        },
{
    let mut acc: u64 = 0;
    let mut i: usize = 0;
    while i < k
        invariant
            0 <= i <= k <= s@.len(),
            forall|j: int| 0 <= j < k ==> is_digit(s@[j]),
            acc == digits_val(s@.take(i as int)),
        decreases k - i,
    {
        let c = s.get_char(i);
        let d: u64 = (c as u32 - 48) as u64;
        assert(d == digit_val(c) && d <= 9);
        if acc > (u64::MAX - d) / 10 {
            proof {
                assert(acc * 10 + d > u64::MAX) by (nonlinear_arith)
                    requires
                        acc > (u64::MAX - d) as int / 10,
                        0 <= d <= 9,
                ;
                assert(s@.take(i + 1).drop_last() =~= s@.take(i as int));
                assert(s@.take(i + 1).last() == s@[i as int]);
                lemma_digits_val_extend(s@, i + 1, k as int);
            }
            return None;
        }
        proof {
            assert(acc * 10 + d <= u64::MAX) by (nonlinear_arith)
                requires
                    acc <= (u64::MAX - d) as int / 10,
                    0 <= d <= 9,
            ;
            assert(s@.take(i + 1).drop_last() =~= s@.take(i as int));
            assert(s@.take(i + 1).last() == s@[i as int]);
        }
        acc = acc * 10 + d;
        i = i + 1;
    }
    assert(s@.take(k as int) =~= s@.take(k as int));
    Some(acc)
}

/// Base of a unit table.
pub open spec fn base_of(t: DatasizeFormat) -> nat {
    match t {
        DatasizeFormat::Dec => 1000nat,
        DatasizeFormat::Bin => 1024nat,
        DatasizeFormat::BinIec => 1024nat,
    }
}

/// The suffix printed for index `i` of a unit table.
pub open spec fn suffix_of(t: DatasizeFormat, i: int) -> Seq<char> {
    match t {
        DatasizeFormat::Dec => if i == 0 {
            seq!['B']
        } else if i == 1 {
            seq!['K', 'B']
        } else if i == 2 {
            seq!['M', 'B']
        } else if i == 3 {
            seq!['G', 'B']
        } else if i == 4 {
            seq!['T', 'B']
        } else {
            seq!['P', 'B']
        },
        DatasizeFormat::Bin => if i == 0 {
            Seq::empty()
        } else if i == 1 {
            seq!['K']
        } else if i == 2 {
            seq!['M']
        } else if i == 3 {
            seq!['G']
        } else if i == 4 {
            seq!['T']
        } else {
            seq!['P']
        },
        DatasizeFormat::BinIec => if i == 0 {
            seq!['B']
        } else if i == 1 {
            seq!['K', 'i', 'B']
        } else if i == 2 {
            seq!['M', 'i', 'B']
        } else if i == 3 {
            seq!['G', 'i', 'B']
        } else if i == 4 {
            seq!['T', 'i', 'B']
        } else {
            seq!['P', 'i', 'B']
        },
    }
}

/// The unit index the scaling loop stops at: the largest index, capped by the
/// table's last entry, whose scale does not exceed the byte count.
pub open spec fn chosen_index(v: nat, b: nat) -> nat {
    if v >= pow(b as int, 5) {
        5nat
    } else if v >= pow(b as int, 4) {
        4nat
    } else if v >= pow(b as int, 3) {
        3nat
    } else if v >= pow(b as int, 2) {
        2nat
    } else if v >= pow(b as int, 1) {
        1nat
    } else {
        0nat
    }
}

/// `n / d` rounded to the nearest integer, halves away from zero.
pub open spec fn round_div(n: int, d: int) -> int {
    (2 * n + d) / (2 * d)
}

/// Rounding a quotient moves the scaled value by at most one denominator:
/// re-scaling the displayed number recovers the original byte count to
/// within one rounding unit.
pub proof fn lemma_round_div_close(n: int, d: int)
    requires
        n >= 0,
        d >= 1,
    ensures
        round_div(n, d) * d <= n + d,
        n <= round_div(n, d) * d + d,
        round_div(n, d) >= 0,
    {
    let x = round_div(n, d);
    vstd::arithmetic::div_mod::lemma_fundamental_div_mod(2 * n + d, 2 * d);
    vstd::arithmetic::div_mod::lemma_mod_bound(2 * n + d, 2 * d);
    let rem = (2 * n + d) % (2 * d);
    assert(2 * n + d == 2 * d * x + rem);
    assert(x * d <= n + d && n <= x * d + d) by (nonlinear_arith)
        requires
            2 * n + d == 2 * d * x + rem,
            0 <= rem < 2 * d,
            d >= 1,
    ;
    vstd::arithmetic::div_mod::lemma_div_pos_is_pos(2 * n + d, 2 * d);
}

/// Formatting a byte count and re-scaling the result recovers the count to
/// within one rounding unit of the chosen scale: with `i` the chosen unit
/// index and `x` the displayed number (scaled by `accuracy`), `x * base^i`
/// and `value * accuracy` differ by at most `base^i`.
pub proof fn lemma_parse_round_trip(value: u64, accuracy: u64, format: DatasizeFormat)
    requires
        accuracy >= 1,
    ensures
        ({
            let b = base_of(format);
            let i = chosen_index(value as nat, b);
            let d = pow(b as int, i);
            let x = round_div(value as int * accuracy as int, d);
            x * d <= value as int * accuracy as int + d && value as int * accuracy as int <= x * d
                + d
        }),
{
    let b = base_of(format);
    let i = chosen_index(value as nat, b);
    let d = pow(b as int, i);
    vstd::arithmetic::power::lemma_pow_positive(b as int, i);
    assert(value as int * accuracy as int >= 0) by (nonlinear_arith)
        requires
            value >= 0,
            accuracy >= 1,
    ;
    lemma_round_div_close(value as int * accuracy as int, d);
}

/// The exponent the scaling-prefix loop reaches: rank of the first letter of
/// `u` when it is a known prefix, and one past the last rank otherwise.
pub open spec fn prefix_rank(u: Seq<char>) -> nat {
    if u.len() > 0 && rank_of(u[0]).is_some() {
        rank_of(u[0]).unwrap()
    } else {
        6nat
    }
}

impl Datasize {
    /// Multiplies a numeric prefix by the power of `base` that the unit's
    /// scaling letter stands for (K is one, P is five; an unknown letter
    /// exhausts the whole prefix list).
    pub fn calc_from_prefix(bytes: u64, unit: &str, base: u64) -> (r: u64)
        requires
            1 <= base,
            pow(base as int, prefix_rank(unit@)) <= u64::MAX,
            bytes * pow(base as int, prefix_rank(unit@)) <= u64::MAX,
        ensures
            r == bytes * pow(base as int, prefix_rank(unit@)),
    {
        let rank: usize = if unit.unicode_len() == 0 {
            6
        } else {
            let c0 = unit.get_char(0);
            if c0 == 'K' {
                1
            } else if c0 == 'M' {
                2
            } else if c0 == 'G' {
                3
            } else if c0 == 'T' {
                4
            } else if c0 == 'P' {
                5
            } else {
                6
            }
        };
        proof {
            vstd::arithmetic::power::lemma_pow0(base as int);
        }
        let mut exp: u64 = 1;
        let mut i: usize = 0;
        while i < rank
            invariant
                0 <= i <= rank,
                rank == prefix_rank(unit@),
                1 <= base,
                exp == pow(base as int, i as nat),
                pow(base as int, rank as nat) <= u64::MAX,
                bytes * pow(base as int, rank as nat) <= u64::MAX,
            decreases rank - i,
        {
            proof {
                assert(pow(base as int, (i + 1) as nat) == pow(base as int, i as nat) * base) by {
                    vstd::arithmetic::power::lemma_pow1(base as int);
                    vstd::arithmetic::power::lemma_pow_adds(base as int, i as nat, 1);
                }
                vstd::arithmetic::power::lemma_pow_increases(base as nat, (i + 1) as nat,
                    rank as nat);
            }
            exp = exp * base;
            i = i + 1;
        }
        proof {
            vstd::arithmetic::power::lemma_pow_positive(base as int, rank as nat);
            assert(bytes * exp <= u64::MAX) by (nonlinear_arith)
                requires
                    exp == pow(base as int, rank as nat),
                    bytes * pow(base as int, rank as nat) <= u64::MAX,
            ;
        }
        bytes * exp
    }

    /// Scales a byte count into a unit table: picks the stopping index of the
    /// repeated-division loop and rounds the quotient to the precision given
    /// as a decimal scale factor (100 means two decimal places). Returns the
    /// displayed number, scaled by `accuracy`, with the unit suffix.
    pub fn parse(value: u64, accuracy: u64, format: DatasizeFormat) -> (r: (u64, String))
        requires
            1 <= accuracy <= 1000000000,
        ensures
            ({
                let b = base_of(format);
                let i = chosen_index(value as nat, b);
                r.0 == round_div(value as int * accuracy as int, pow(b as int, i)) && r.1@
                    == suffix_of(format, i as int)
            }),
    {
        let base: u64 = match format {
            DatasizeFormat::Dec => 1000,
            DatasizeFormat::Bin => 1024,
            DatasizeFormat::BinIec => 1024,
        };
        let p1 = pow_u64(base, 1);
        let p2 = pow_u64(base, 2);
        let p3 = pow_u64(base, 3);
        let p4 = pow_u64(base, 4);
        let p5 = pow_u64(base, 5);
        let (idx, p): (usize, u64) = if value >= p5 {
            (5, p5)
        } else if value >= p4 {
            (4, p4)
        } else if value >= p3 {
            (3, p3)
        } else if value >= p2 {
            (2, p2)
        } else if value >= p1 {
            (1, p1)
        } else {
            proof {
                vstd::arithmetic::power::lemma_pow0(base as int);
            }
            (0, 1)
        };
        proof {
            vstd::arithmetic::power::lemma_pow_increases(base as nat, 1, 2);
            vstd::arithmetic::power::lemma_pow_increases(base as nat, 2, 3);
            vstd::arithmetic::power::lemma_pow_increases(base as nat, 3, 4);
            vstd::arithmetic::power::lemma_pow_increases(base as nat, 4, 5);
            assert(value as int * accuracy as int <= 18446744073709551615 * 1000000000)
                by (nonlinear_arith)
                requires
                    value <= 18446744073709551615u64,
                    1 <= accuracy <= 1000000000,
            ;
        }
        let n: u128 = value as u128 * accuracy as u128;
        let d: u128 = p as u128;
        let x: u128 = (2 * n + d) / (2 * d);
        proof {
            let ni = n as int;
            let di = d as int;
            lemma_round_div_close(ni, di);
            let xi = round_div(ni, di);
            assert(xi * di <= ni + di);
            if idx == 5 {
                assert(di >= 1000000000000000) by {
                    reveal_with_fuel(pow, 6);
                }
                assert(xi <= 20000000000000) by (nonlinear_arith)
                    requires
                        xi * di <= ni + di,
                        di >= 1000000000000000,
                        ni <= 18446744073709551615 * 1000000000,
                        xi >= 0,
                ;
            } else {
                assert((value as int) < pow(base as int, (idx + 1) as nat));
                assert(pow(base as int, (idx + 1) as nat) == di * base) by {
                    vstd::arithmetic::power::lemma_pow1(base as int);
                    vstd::arithmetic::power::lemma_pow_adds(base as int, idx as nat, 1);
                }
                assert(xi <= 2048000000001) by (nonlinear_arith)
                    requires
                        xi * di <= ni + di,
                        ni == value as int * accuracy as int,
                        value as int <= di * base - 1,
                        1 <= accuracy <= 1000000000,
                        base <= 1024,
                        di >= 1,
                        xi >= 0,
                ;
            }
        }
        let x64: u64 = x as u64;
        let suffix = suffix_str(format, idx);
        (x64, suffix.to_owned())
    }

    /// Scales this byte count into a unit table at the given precision.
    pub fn with_unit_string(self: &Self, accuracy: u64, format: DatasizeFormat) -> (r: (
        u64,
        String,
    ))
        requires
            1 <= accuracy <= 1000000000,
        ensures
            ({
                let b = base_of(format);
                let i = chosen_index(self.value as nat, b);
                r.0 == round_div(self.value as int * accuracy as int, pow(b as int, i)) && r.1@
                    == suffix_of(format, i as int)
            }),
    {
        Self::parse(self.value, accuracy, format)
    }

    /// The display form of this byte count: the binary table at two decimal
    /// places, number then suffix.
    pub fn to_display_string(self: &Self) -> (r: String)
        ensures
            ({
                let i = chosen_index(self.value as nat, 1024);
                r@ == fixed_str(round_div(self.value as int * 100, pow(1024, i)) as nat, 2)
                    + suffix_of(DatasizeFormat::Bin, i as int)
            }),
    {
        let (x, u) = self.with_unit_string(100, DatasizeFormat::Bin);
        let mut s = fixed_string(x, 2);
        s.append(u.as_str());
        s
    }
}

/// Decimal digit as a character.
pub open spec fn digit_char(d: nat) -> char {
    if d == 0 {
        '0'
    } else if d == 1 {
        '1'
    } else if d == 2 {
        '2'
    } else if d == 3 {
        '3'
    } else if d == 4 {
        '4'
    } else if d == 5 {
        '5'
    } else if d == 6 {
        '6'
    } else if d == 7 {
        '7'
    } else if d == 8 {
        '8'
    } else {
        '9'
    }
}

/// Decimal writing of `n`, most significant digit first, no leading zeros.
pub open spec fn dec_str(n: nat) -> Seq<char>
    decreases n,
{
    if n < 10 {
        seq![digit_char(n)]
    } else {
        dec_str(n / 10).push(digit_char(n % 10))
    }
}

/// The last `e` decimal digits of `n`, zero-padded to exactly `e` characters.
pub open spec fn pad0(n: nat, e: nat) -> Seq<char>
    decreases e,
{
    if e == 0 {
        Seq::empty()
    } else {
        pad0(n / 10, (e - 1) as nat) + seq![digit_char(n % 10)]
    }
}

/// A fixed-point number scaled by `10^e`, written with exactly `e` decimal
/// places (none when `e` is zero).
pub open spec fn fixed_str(scaled: nat, e: nat) -> Seq<char> {
    if e == 0 {
        dec_str(scaled)
    } else {
        dec_str(scaled / pow(10, e) as nat) + seq!['.'] + pad0(scaled % pow(10, e) as nat, e)
    }
}

/// One decimal digit as a string slice.
fn digit_str(d: u64) -> (r: &'static str)
    requires
        d < 10,
    ensures
        r@ == seq![digit_char(d as nat)],
{
    if d == 0 {
        proof {
            reveal_strlit("0");
        }
        assert("0"@ =~= seq![digit_char(0)]);
        "0"
    } else if d == 1 {
        proof {
            reveal_strlit("1");
        }
        assert("1"@ =~= seq![digit_char(1)]);
        "1"
    } else if d == 2 {
        proof {
            reveal_strlit("2");
        }
        assert("2"@ =~= seq![digit_char(2)]);
        "2"
    } else if d == 3 {
        proof {
            reveal_strlit("3");
        }
        assert("3"@ =~= seq![digit_char(3)]);
        "3"
    } else if d == 4 {
        proof {
            reveal_strlit("4");
        }
        assert("4"@ =~= seq![digit_char(4)]);
        "4"
    } else if d == 5 {
        proof {
            reveal_strlit("5");
        }
        assert("5"@ =~= seq![digit_char(5)]);
        "5"
    } else if d == 6 {
        proof {
            reveal_strlit("6");
        }
        assert("6"@ =~= seq![digit_char(6)]);
        "6"
    } else if d == 7 {
        proof {
            reveal_strlit("7");
        }
        assert("7"@ =~= seq![digit_char(7)]);
        "7"
    } else if d == 8 {
        proof {
            reveal_strlit("8");
        }
        assert("8"@ =~= seq![digit_char(8)]);
        "8"
    } else {
        proof {
            reveal_strlit("9");
        }
        assert("9"@ =~= seq![digit_char(9)]);
        "9"
    }
}

/// Decimal writing of a number, for display.
pub fn u128_to_string(n: u128) -> (r: String)
    ensures
        r@ == dec_str(n as nat),
    decreases n,
{
    if n < 10 {
        let r = digit_str(n as u64).to_owned();
        assert(r@ =~= dec_str(n as nat));
        r
    } else {
        let mut s = u128_to_string(n / 10);
        s.append(digit_str((n % 10) as u64));
        assert(s@ =~= dec_str(n as nat));
        s
    }
}

/// The last `e` decimal digits of `n`, zero-padded to exactly `e` characters.
pub fn pad0_string(n: u64, e: usize) -> (r: String)
    ensures
        r@ == pad0(n as nat, e as nat),
    decreases e,
{
    if e == 0 {
        let r = String::new();
        assert(r@ =~= pad0(n as nat, 0));
        r
    } else {
        let mut s = pad0_string(n / 10, e - 1);
        s.append(digit_str(n % 10));
        assert(s@ =~= pad0(n as nat, e as nat));
        s
    }
}

/// A fixed-point number scaled by `10^decimals`, written with exactly
/// `decimals` decimal places.
pub fn fixed_string(scaled: u64, decimals: usize) -> (r: String)
    requires
        decimals <= 5,
    ensures
        r@ == fixed_str(scaled as nat, decimals as nat),
{
    if decimals == 0 {
        return u128_to_string(scaled as u128);
    }
    let p = pow_u64(10, decimals);
    proof {
        vstd::arithmetic::power::lemma_pow_positive(10, decimals as nat);
    }
    let mut s = u128_to_string((scaled / p) as u128);
    proof {
        reveal_strlit(".");
    }
    s.append(".");
    let fs = pad0_string(scaled % p, decimals);
    s.append(fs.as_str());
    assert(s@ =~= fixed_str(scaled as nat, decimals as nat));
    s
}

/// The suffix printed for index `idx` of a unit table.
pub fn suffix_str(format: DatasizeFormat, idx: usize) -> (r: &'static str)
    requires
        idx <= 5,
    ensures
        r@ == suffix_of(format, idx as int),
{
    match format {
        DatasizeFormat::Dec => {
            if idx == 0 {
                proof {
                    reveal_strlit("B");
                }
                assert("B"@ =~= suffix_of(format, 0));
                "B"
            } else if idx == 1 {
                proof {
                    reveal_strlit("KB");
                }
                assert("KB"@ =~= suffix_of(format, 1));
                "KB"
            } else if idx == 2 {
                proof {
                    reveal_strlit("MB");
                }
                assert("MB"@ =~= suffix_of(format, 2));
                "MB"
            } else if idx == 3 {
                proof {
                    reveal_strlit("GB");
                }
                assert("GB"@ =~= suffix_of(format, 3));
                "GB"
            } else if idx == 4 {
                proof {
                    reveal_strlit("TB");
                }
                assert("TB"@ =~= suffix_of(format, 4));
                "TB"
            } else {
                proof {
                    reveal_strlit("PB");
                }
                assert("PB"@ =~= suffix_of(format, 5));
                "PB"
            }
        },
        DatasizeFormat::Bin => {
            if idx == 0 {
                proof {
                    reveal_strlit("");
                }
                assert(""@ =~= suffix_of(format, 0));
                ""
            } else if idx == 1 {
                proof {
                    reveal_strlit("K");
                }
                assert("K"@ =~= suffix_of(format, 1));
                "K"
            } else if idx == 2 {
                proof {
                    reveal_strlit("M");
                }
                assert("M"@ =~= suffix_of(format, 2));
                "M"
            } else if idx == 3 {
                proof {
                    reveal_strlit("G");
                }
                assert("G"@ =~= suffix_of(format, 3));
                "G"
            } else if idx == 4 {
                proof {
                    reveal_strlit("T");
                }
                assert("T"@ =~= suffix_of(format, 4));
                "T"
            } else {
                proof {
                    reveal_strlit("P");
                }
                assert("P"@ =~= suffix_of(format, 5));
                "P"
            }
        },
        DatasizeFormat::BinIec => {
            if idx == 0 {
                proof {
                    reveal_strlit("B");
                }
                assert("B"@ =~= suffix_of(format, 0));
                "B"
            } else if idx == 1 {
                proof {
                    reveal_strlit("KiB");
                }
                assert("KiB"@ =~= suffix_of(format, 1));
                "KiB"
            } else if idx == 2 {
                proof {
                    reveal_strlit("MiB");
                }
                assert("MiB"@ =~= suffix_of(format, 2));
                "MiB"
            } else if idx == 3 {
                proof {
                    reveal_strlit("GiB");
                }
                assert("GiB"@ =~= suffix_of(format, 3));
                "GiB"
            } else if idx == 4 {
                proof {
                    reveal_strlit("TiB");
                }
                assert("TiB"@ =~= suffix_of(format, 4));
                "TiB"
            } else {
                proof {
                    reveal_strlit("PiB");
                }
                assert("PiB"@ =~= suffix_of(format, 5));
                "PiB"
            }
        },
    }
}

} // verus!

