//! Interval input: time units, parsing a user amount into seconds, and readable labels.

use vstd::prelude::*;
use crate::text::{
    chars_equal, chars_of, decimal, join, join_chars, owned, push_decimal, push_str, string_from,
    trim, trim_chars,
};

verus! {

/// Shortest interval accepted, in seconds. Zero would spin forever.
pub const MIN_INTERVAL_SECS: u32 = 1;

/// Longest interval accepted, in seconds: a day. Anything longer is taken for a typo.
pub const MAX_INTERVAL_SECS: u32 = 86400;

/// Unit of an interval amount typed by the user.
#[derive(Clone, Copy, Debug, PartialEq, Eq, Structural)]
pub enum TimeUnit {
    Seconds,
    Minutes,
    Hours,
}

/// Label shown in the unit dropdown.
pub open spec fn unit_label(u: TimeUnit) -> Seq<char> {
    match u {
        TimeUnit::Seconds => "초"@,
        TimeUnit::Minutes => "분"@,
        TimeUnit::Hours => "시간"@,
    }
}

/// The unit whose label is `label`, if any.
pub open spec fn unit_from_label(label: Seq<char>) -> Option<TimeUnit> {
    if label == unit_label(TimeUnit::Seconds) {
        Some(TimeUnit::Seconds)
    } else if label == unit_label(TimeUnit::Minutes) {
        Some(TimeUnit::Minutes)
    } else if label == unit_label(TimeUnit::Hours) {
        Some(TimeUnit::Hours)
    } else {
        None
    }
}

impl TimeUnit {
    /// Order in which the units are listed.
    pub fn all() -> (r: [TimeUnit; 3])
        ensures
            r@ == seq![TimeUnit::Seconds, TimeUnit::Minutes, TimeUnit::Hours],
    {
        [TimeUnit::Seconds, TimeUnit::Minutes, TimeUnit::Hours]
    }

    /// Seconds in one unit.
    pub open spec fn spec_seconds_per(self) -> nat {
        match self {
            TimeUnit::Seconds => 1,
            TimeUnit::Minutes => 60,
            TimeUnit::Hours => 3600,
        }
    }

    pub fn seconds_per(self) -> (r: u64)
        ensures
            r == self.spec_seconds_per(),
    {
        match self {
            TimeUnit::Seconds => 1,
            TimeUnit::Minutes => 60,
            TimeUnit::Hours => 3_600,
        }
    }

    pub fn label(self) -> (r: &'static str)
        ensures
            r@ == unit_label(self),
    {
        match self {
            TimeUnit::Seconds => "초",
            TimeUnit::Minutes => "분",
            TimeUnit::Hours => "시간",
        }
    }

    pub fn from_label(label: &str) -> (r: Option<TimeUnit>)
        ensures
            r == unit_from_label(label@),
    {
        let l = chars_of(label);
        let s = chars_of(TimeUnit::Seconds.label());
        let m = chars_of(TimeUnit::Minutes.label());
        let h = chars_of(TimeUnit::Hours.label());
        if chars_equal(l.as_slice(), s.as_slice()) {
            Some(TimeUnit::Seconds)
        } else if chars_equal(l.as_slice(), m.as_slice()) {
            Some(TimeUnit::Minutes)
        } else if chars_equal(l.as_slice(), h.as_slice()) {
            Some(TimeUnit::Hours)
        } else {
            None
        }
    }
}

/// Every unit's label leads back to that unit.
pub proof fn lemma_unit_label_round_trip(u: TimeUnit)
    ensures
        unit_from_label(unit_label(u)) == Some(u),
{
    reveal_strlit("초");
    reveal_strlit("분");
    reveal_strlit("시간");
    assert("초"@ != "분"@) by {
        assert("초"@[0] != "분"@[0]);
    }
    assert("초"@ != "시간"@) by {
        assert("초"@.len() != "시간"@.len());
    }
    assert("분"@ != "시간"@) by {
        assert("분"@.len() != "시간"@.len());
    }
}

// ───────────────────────── parsing ─────────────────────────

pub open spec fn is_ascii_digit(c: char) -> bool {
    '0' <= c && c <= '9'
}

/// Value of a sequence of decimal digits.
pub open spec fn digits_value(d: Seq<char>) -> nat
    decreases d.len(),
{
    if d.len() == 0 {
        0
    } else {
        digits_value(d.drop_last()) * 10 + ((d.last() as nat) - ('0' as nat)) as nat
    }
}

/// The digits after an optional leading `+`.
pub open spec fn unsigned_digits(s: Seq<char>) -> Seq<char> {
    if s.len() > 0 && s[0] == '+' {
        s.drop_first()
    } else {
        s
    }
}

/// Every character is an ASCII digit.
pub open spec fn all_digits(d: Seq<char>) -> bool {
    forall|i: int| 0 <= i < d.len() ==> is_ascii_digit(#[trigger] d[i])
}

/// What `str::parse::<u64>` gives: an optional `+`, then one or more ASCII digits
/// whose value fits in 64 bits.
pub open spec fn parse_u64(s: Seq<char>) -> Option<nat> {
    let d = unsigned_digits(s);
    if d.len() > 0 && all_digits(d) && digits_value(d) <= u64::MAX {
        Some(digits_value(d))
    } else {
        None
    }
}

proof fn lemma_digits_value_monotone(d: Seq<char>, i: int)
    requires
        0 <= i <= d.len(),
        forall|k: int| 0 <= k < d.len() ==> is_ascii_digit(#[trigger] d[k]),
    ensures
        digits_value(d.subrange(0, i)) <= digits_value(d),
    decreases d.len() - i,
{
    if i < d.len() {
        lemma_digits_value_monotone(d, i + 1);
        assert(d.subrange(0, i + 1).drop_last() =~= d.subrange(0, i));
    } else {
        assert(d.subrange(0, i) =~= d);
    }
}

/// Parses a decimal `u64` as `str::parse` does.
pub fn parse_u64_chars(s: &[char]) -> (r: Option<u64>)
    ensures
        match r {
            Some(v) => parse_u64(s@) == Some(v as nat),
            None => parse_u64(s@) is None,
        },
{
    let start: usize = if s.len() > 0 && s[0] == '+' {
        1
    } else {
        0
    };
    let ghost d = unsigned_digits(s@);
    assert(d =~= s@.subrange(start as int, s@.len() as int));
    if start >= s.len() {
        return None;
    }
    let mut value: u64 = 0;
    let mut i: usize = start;
    while i < s.len()
        invariant
            start <= i <= s@.len(),
            d == s@.subrange(start as int, s@.len() as int),
            d == unsigned_digits(s@),
            forall|k: int| start <= k < i ==> is_ascii_digit(#[trigger] s@[k]),
            value as nat == digits_value(d.subrange(0, i - start)),
        decreases s@.len() - i,
    {
        let c = s[i];
        if !('0' <= c && c <= '9') {
            proof {
                assert(d[i - start] == c);
                assert(!is_ascii_digit(d[i - start]));
                assert(!all_digits(d));
            }
            return None;
        }
        let digit = (c as u32 - 48) as u64;
        proof {
            assert(d.subrange(0, i + 1 - start).drop_last() =~= d.subrange(0, i - start));
            assert(d.subrange(0, i + 1 - start).last() == c);
            assert(digits_value(d.subrange(0, i + 1 - start)) == digits_value(
                d.subrange(0, i - start),
            ) * 10 + digit);
        }
        if value > (u64::MAX - digit) / 10 {
            proof {
                assert(value * 10 + digit > u64::MAX) by (nonlinear_arith)
                    requires
                        value > (u64::MAX - digit) / 10,
                        digit <= 9,
                ;
                // every digit so far and beyond is checked below before claiming overflow
                if all_digits(d) {
                    lemma_digits_value_monotone(d, i + 1 - start);
                }
            }
            return None;
        }
        value = value * 10 + digit;
        i = i + 1;
    }
    assert(d.subrange(0, d.len() as int) =~= d);
    Some(value)
}

// ───────────────────────── interval input ─────────────────────────

pub open spec fn msg_empty() -> Seq<char> {
    "시간을 입력하세요."@
}

pub open spec fn msg_not_number() -> Seq<char> {
    "숫자만 입력할 수 있습니다."@
}

pub open spec fn msg_too_short() -> Seq<char> {
    decimal(MIN_INTERVAL_SECS as nat) + "초보다 짧게 설정할 수 없습니다."@
}

pub open spec fn msg_too_long() -> Seq<char> {
    "24시간보다 긴 주기는 설정할 수 없습니다."@
}

/// Outcome of turning a typed amount and unit into seconds: the seconds, or the
/// reason shown to the user. The product saturates at `u64::MAX` before the range check.
pub open spec fn interval_secs(amount: Seq<char>, unit: TimeUnit) -> Result<nat, Seq<char>> {
    let t = trim(amount);
    if t.len() == 0 {
        Err(msg_empty())
    } else {
        match parse_u64(t) {
            None => Err(msg_not_number()),
            Some(n) => {
                let product = n * unit.spec_seconds_per();
                let total = if product > u64::MAX {
                    u64::MAX as nat
                } else {
                    product
                };
                if total < MIN_INTERVAL_SECS {
                    Err(msg_too_short())
                } else if total > MAX_INTERVAL_SECS {
                    Err(msg_too_long())
                } else {
                    Ok(total)
                }
            },
        }
    }
}

/// Converts the amount and unit the user typed into seconds, or explains why not.
pub fn interval_to_secs(amount: &str, unit: TimeUnit) -> (r: Result<u32, String>)
    ensures
        match r {
            Ok(v) => interval_secs(amount@, unit) == Ok::<nat, Seq<char>>(v as nat),
            Err(e) => interval_secs(amount@, unit) == Err::<nat, Seq<char>>(e@),
        },
{
    let chars = chars_of(amount);
    let trimmed = trim_chars(chars.as_slice());
    if trimmed.len() == 0 {
        return Err(owned("시간을 입력하세요."));
    }
    let parsed = parse_u64_chars(trimmed.as_slice());
    let n = match parsed {
        None => {
            return Err(owned("숫자만 입력할 수 있습니다."));
        },
        Some(n) => n,
    };
    let total = match n.checked_mul(unit.seconds_per()) {
        Some(t) => t,
        None => u64::MAX,
    };
    if total < MIN_INTERVAL_SECS as u64 {
        let mut msg: Vec<char> = Vec::new();
        push_decimal(&mut msg, MIN_INTERVAL_SECS as u64);
        push_str(&mut msg, "초보다 짧게 설정할 수 없습니다.");
        return Err(string_from(msg.as_slice()));
    }
    if total > MAX_INTERVAL_SECS as u64 {
        return Err(owned("24시간보다 긴 주기는 설정할 수 없습니다."));
    }
    Ok(total as u32)
}

// ───────────────────────── formatting ─────────────────────────

/// Readable label of an interval: hours, minutes and seconds that are not zero,
/// largest first, separated by a space; `0초` for zero.
pub open spec fn interval_label(secs: nat) -> Seq<char> {
    if secs == 0 {
        "0초"@
    } else {
        let h = secs / 3600;
        let m = (secs % 3600) / 60;
        let s = secs % 60;
        let parts = (if h > 0 {
            seq![decimal(h) + "시간"@]
        } else {
            Seq::empty()
        }) + (if m > 0 {
            seq![decimal(m) + "분"@]
        } else {
            Seq::empty()
        }) + (if s > 0 {
            seq![decimal(s) + "초"@]
        } else {
            Seq::empty()
        });
        join(parts, " "@)
    }
}

/// Formats an interval for display without dropping any unit (`90` → `1분 30초`).
pub fn format_interval(secs: u32) -> (r: String)
    ensures
        r@ == interval_label(secs as nat),
{
    if secs == 0 {
        return owned("0초");
    }
    let hours = secs / 3_600;
    let minutes = (secs % 3_600) / 60;
    let seconds = secs % 60;
    let mut parts: Vec<Vec<char>> = Vec::new();
    let ghost mut expected: Seq<Seq<char>> = Seq::empty();
    if hours > 0 {
        let mut p: Vec<char> = Vec::new();
        push_decimal(&mut p, hours as u64);
        push_str(&mut p, "시간");
        parts.push(p);
        proof {
            expected = expected.push(decimal(hours as nat) + "시간"@);
        }
    }
    if minutes > 0 {
        let mut p: Vec<char> = Vec::new();
        push_decimal(&mut p, minutes as u64);
        push_str(&mut p, "분");
        parts.push(p);
        proof {
            expected = expected.push(decimal(minutes as nat) + "분"@);
        }
    }
    if seconds > 0 {
        let mut p: Vec<char> = Vec::new();
        push_decimal(&mut p, seconds as u64);
        push_str(&mut p, "초");
        parts.push(p);
        proof {
            expected = expected.push(decimal(seconds as nat) + "초"@);
        }
    }
    proof {
        assert(parts@.map_values(|p: Vec<char>| p@) =~= expected);
        let h = (secs as nat) / 3600;
        let m = ((secs as nat) % 3600) / 60;
        let s = (secs as nat) % 60;
        let spec_parts = (if h > 0 {
            seq![decimal(h) + "시간"@]
        } else {
            Seq::empty()
        }) + (if m > 0 {
            seq![decimal(m) + "분"@]
        } else {
            Seq::empty()
        }) + (if s > 0 {
            seq![decimal(s) + "초"@]
        } else {
            Seq::empty()
        });
        assert(expected =~= spec_parts);
    }
    let sep = chars_of(" ");
    let joined = join_chars(&parts, sep.as_slice());
    string_from(joined.as_slice())
}

} // verus!
