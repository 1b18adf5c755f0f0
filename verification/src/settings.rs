use vstd::prelude::*;
use crate::text::{char_count, chars_of, decimal, digit_char, owned, str_eq, view_err};

verus! {

// ---------------------------------------------------------------------------
// Unsigned decimal parsing (`str::parse::<u32>`)
// ---------------------------------------------------------------------------

pub open spec fn is_digit(c: char) -> bool {
    '0' <= c && c <= '9'
}

/// Value of a string of decimal digits.
pub open spec fn digits_value(d: Seq<char>) -> nat
    decreases d.len(),
{
    if d.len() == 0 {
        0
    } else {
        digits_value(d.drop_last()) * 10 + ((d.last() as u32) - 48) as nat
    }
}

/// `s` without a leading `+`.
pub open spec fn unsigned_digits(s: Seq<char>) -> Seq<char> {
    if s.len() > 0 && s[0] == '+' {
        s.drop_first()
    } else {
        s
    }
}

/// Whether every character of `d` is a decimal digit.
pub open spec fn all_digits(d: Seq<char>) -> bool {
    forall|i: int| 0 <= i < d.len() ==> is_digit(#[trigger] d[i])
}

/// `str::parse::<u32>`: an optional `+`, then one or more decimal digits whose
/// value fits a `u32`.
pub open spec fn spec_parse_u32(s: Seq<char>) -> Option<nat> {
    let d = unsigned_digits(s);
    if d.len() == 0 || !all_digits(d) {
        None
    } else if digits_value(d) > u32::MAX {
        None
    } else {
        Some(digits_value(d))
    }
}

proof fn lemma_digits_value_prefix(d: Seq<char>, i: int)
    requires
        0 <= i <= d.len(),
        forall|j: int| 0 <= j < d.len() ==> is_digit(#[trigger] d[j]),
    ensures
        digits_value(d.subrange(0, i)) <= digits_value(d),
    decreases d.len(),
{
    if i < d.len() {
        assert(d.drop_last().subrange(0, i) =~= d.subrange(0, i));
        lemma_digits_value_prefix(d.drop_last(), i);
    } else {
        assert(d.subrange(0, i) =~= d);
    }
}

proof fn lemma_decimal_digits(n: nat)
    ensures
        decimal(n).len() > 0,
        all_digits(decimal(n)),
        digits_value(decimal(n)) == n,
    decreases n,
{
    let c = digit_char(n % 10);
    assert(c as u32 == 48 + n % 10);
    assert(is_digit(c));
    let d = decimal(n);
    if n < 10 {
        assert(d.drop_last() =~= Seq::<char>::empty());
        assert(digits_value(d.drop_last()) == 0);
        assert(d.last() == c);
    } else {
        lemma_decimal_digits(n / 10);
        assert(d.drop_last() =~= decimal(n / 10));
        assert(d.last() == c);
        assert((n / 10) * 10 + n % 10 == n);
        assert forall|i: int| 0 <= i < d.len() implies is_digit(#[trigger] d[i]) by {
            if i < d.len() - 1 {
                assert(d[i] == decimal(n / 10)[i]);
            }
        }
    }
}

/// A whole number written in decimal parses back to itself, as long as it fits a `u32`.
pub proof fn lemma_parse_u32_of_decimal(n: nat)
    requires
        n <= u32::MAX,
    ensures
        spec_parse_u32(decimal(n)) == Some(n),
{
    lemma_decimal_digits(n);
    assert(is_digit(decimal(n)[0]));
    assert(unsigned_digits(decimal(n)) == decimal(n));
}

/// Parses `s` as a `u32` written in decimal.
pub fn parse_u32(s: &str) -> (r: Option<u32>)
    ensures
        match r {
            Some(v) => spec_parse_u32(s@) == Some(v as nat),
            None => spec_parse_u32(s@) is None,
        },
{
    let v = chars_of(s);
    let n = v.len();
    let start: usize = if n > 0 && v[0] == '+' {
        1
    } else {
        0
    };
    let ghost d = v@.subrange(start as int, n as int);
    proof {
        if n > 0 && v@[0] == '+' {
            assert(d =~= s@.drop_first());
        } else {
            assert(d =~= s@);
        }
        assert(d == unsigned_digits(s@));
    }
    if start == n {
        return None;
    }
    let mut i = start;
    while i < n
        invariant
            start <= i <= n,
            n == v@.len(),
            d == v@.subrange(start as int, n as int),
            d == unsigned_digits(s@),
            forall|j: int| 0 <= j < i - start ==> is_digit(#[trigger] d[j]),
        decreases n - i,
    {
        if !('0' <= v[i] && v[i] <= '9') {
            assert(!is_digit(d[i - start]));
            assert(!all_digits(d));
            return None;
        }
        i = i + 1;
    }
    let mut value: u64 = 0;
    let mut k = start;
    while k < n
        invariant
            start <= k <= n,
            n == v@.len(),
            d == v@.subrange(start as int, n as int),
            d == unsigned_digits(s@),
            forall|j: int| 0 <= j < d.len() ==> is_digit(#[trigger] d[j]),
            value == digits_value(d.subrange(0, k - start)),
            value <= u32::MAX,
        decreases n - k,
    {
        assert(d.subrange(0, k + 1 - start).drop_last() =~= d.subrange(0, k - start));
        assert(d[k - start] == v@[k as int]);
        assert(is_digit(d[k - start]));
        let digit = (v[k] as u32 - 48) as u64;
        value = value * 10 + digit;
        assert(d.subrange(0, k + 1 - start).last() == d[k - start]);
        assert(value == digits_value(d.subrange(0, k + 1 - start)));
        if value > 0xffff_ffff {
            proof {
                lemma_digits_value_prefix(d, k + 1 - start);
                assert(all_digits(d));
                assert(digits_value(d) > u32::MAX);
            }
            return None;
        }
        k = k + 1;
    }
    assert(d.subrange(0, n - start) =~= d);
    Some(value as u32)
}

// ---------------------------------------------------------------------------
// Double-precision bounds
//
// Decimal numbers are parsed as IEEE-754 doubles outside the library; their bit
// patterns (`f64::to_bits`) are checked here.  Non-negative doubles are ordered
// like their bit patterns, infinities and NaNs lie above every finite bound, a
// set sign bit marks a negative value, and `-0.0` equals `0.0`.
// ---------------------------------------------------------------------------

/// Bit pattern of `-0.0`.
pub const NEG_ZERO_BITS: u64 = 0x8000_0000_0000_0000;

/// Whether the double with bits `bits` lies in `[lo, hi]`, for the bits `lo` <= `hi` of
/// two finite non-negative doubles.
pub open spec fn f64_bits_within(bits: u64, lo: u64, hi: u64) -> bool {
    (lo <= bits && bits <= hi) || (lo == 0 && bits == NEG_ZERO_BITS)
}

fn bits_within(bits: u64, lo: u64, hi: u64) -> (r: bool)
    ensures
        r == f64_bits_within(bits, lo, hi),
{
    (lo <= bits && bits <= hi) || (lo == 0 && bits == NEG_ZERO_BITS)
}

/// Bits of `0.25`.
pub const SCALE_MIN_BITS: u64 = 0x3FD0_0000_0000_0000;

/// Bits of `3.0`.
pub const SCALE_MAX_BITS: u64 = 0x4008_0000_0000_0000;

/// Bits of `0.0`.
pub const VOLUME_MIN_BITS: u64 = 0;

/// Bits of `100.0`.
pub const VOLUME_MAX_BITS: u64 = 0x4059_0000_0000_0000;

// ---------------------------------------------------------------------------
// Settings
// ---------------------------------------------------------------------------

/// Keys of the settings the player stores.
pub open spec fn is_setting_key(key: Seq<char>) -> bool {
    ||| key == "skip_seconds"@
    ||| key == "window_scale"@
    ||| key == "resume_mode"@
    ||| key == "window_size_policy"@
    ||| key == "volume"@
    ||| key == "muted"@
}

/// Whether a setting may be stored.  `number` holds the bits of `value` parsed as
/// a double (nothing when it does not parse), for the numeric settings.
pub open spec fn spec_validate_setting(key: Seq<char>, value: Seq<char>, number: Option<u64>) -> Result<
    (),
    Seq<char>,
> {
    if key == "skip_seconds"@ {
        match spec_parse_u32(value) {
            None => Err("快进秒数格式无效"@),
            Some(n) => if 1 <= n && n <= 60 {
                Ok(())
            } else {
                Err("快进秒数必须在 1-60 之间"@)
            },
        }
    } else if key == "window_scale"@ {
        match number {
            None => Err("窗口缩放格式无效"@),
            Some(b) => if f64_bits_within(b, SCALE_MIN_BITS, SCALE_MAX_BITS) {
                Ok(())
            } else {
                Err("窗口缩放必须在 0.25-3.0 之间"@)
            },
        }
    } else if key == "resume_mode"@ {
        if value == "start"@ || value == "resume"@ {
            Ok(())
        } else {
            Err("播放起点设置无效"@)
        }
    } else if key == "window_size_policy"@ {
        if value == "video"@ || value == "keep"@ || value == "fit"@ || value == "maximize"@ {
            Ok(())
        } else {
            Err("窗口尺寸策略无效"@)
        }
    } else if key == "volume"@ {
        match number {
            None => Err("音量格式无效"@),
            Some(b) => if f64_bits_within(b, VOLUME_MIN_BITS, VOLUME_MAX_BITS) {
                Ok(())
            } else {
                Err("音量必须在 0-100 之间"@)
            },
        }
    } else if key == "muted"@ {
        if value == "true"@ || value == "false"@ {
            Ok(())
        } else {
            Err("静音设置无效"@)
        }
    } else {
        Err("未知设置项"@)
    }
}

/// The values a setting chosen from a list may take: where playback starts, how
/// the window is sized for a video, and whether sound is muted.  Empty for the
/// other settings.
pub open spec fn setting_choices(key: Seq<char>) -> Seq<Seq<char>> {
    if key == "resume_mode"@ {
        seq!["start"@, "resume"@]
    } else if key == "window_size_policy"@ {
        seq!["video"@, "keep"@, "fit"@, "maximize"@]
    } else if key == "muted"@ {
        seq!["true"@, "false"@]
    } else {
        Seq::empty()
    }
}

/// A setting chosen from a list is stored exactly when its value is one of the
/// list, whatever number came with it: every listed value is accepted and any
/// other refused.
pub proof fn lemma_choice_setting_accepts_its_list(
    key: Seq<char>,
    value: Seq<char>,
    number: Option<u64>,
)
    requires
        setting_choices(key).len() > 0,
    ensures
        spec_validate_setting(key, value, number) is Ok <==> setting_choices(key).contains(value),
{
    reveal_strlit("skip_seconds");
    reveal_strlit("window_scale");
    reveal_strlit("resume_mode");
    reveal_strlit("window_size_policy");
    reveal_strlit("volume");
    reveal_strlit("muted");
    assert("skip_seconds"@.len() == 12 && "window_scale"@.len() == 12 && "resume_mode"@.len()
        == 11 && "window_size_policy"@.len() == 18 && "volume"@.len() == 6 && "muted"@.len()
        == 5);
    let c = setting_choices(key);
    if c.contains(value) {
        let k = choose|k: int| 0 <= k < c.len() && c[k] == value;
        assert(c[k] == value);
    } else {
        assert forall|k: int| 0 <= k < c.len() implies c[k] != value by {
            if c[k] == value {
                assert(c.contains(value));
            }
        }
    }
    if key == "resume_mode"@ {
        assert(c[0] == "start"@ && c[1] == "resume"@ && c.len() == 2);
    } else if key == "window_size_policy"@ {
        assert(c[0] == "video"@ && c[1] == "keep"@ && c[2] == "fit"@ && c[3] == "maximize"@
            && c.len() == 4);
    } else {
        assert(c[0] == "true"@ && c[1] == "false"@ && c.len() == 2);
    }
}

/// The skip interval is stored for every whole number of seconds from 1 to 60
/// written in decimal, and refused for every other whole number.
pub proof fn lemma_skip_seconds_range(n: nat, number: Option<u64>)
    requires
        n <= u32::MAX,
    ensures
        spec_validate_setting("skip_seconds"@, decimal(n), number) is Ok <==> 1 <= n <= 60,
{
    lemma_parse_u32_of_decimal(n);
}

/// The window scale is stored exactly for a number from 0.25 to 3.0 and the volume
/// exactly for one from 0 to 100, bounds included; a value that is not a number is
/// refused, whatever it reads.
pub proof fn lemma_numeric_setting_bounds(value: Seq<char>, number: Option<u64>)
    ensures
        spec_validate_setting("window_scale"@, value, number) is Ok <==> (number matches Some(
            b,
        ) && 0x3FD0_0000_0000_0000u64 <= b <= 0x4008_0000_0000_0000u64),
        spec_validate_setting("volume"@, value, number) is Ok <==> (number matches Some(b) && (b
            <= 0x4059_0000_0000_0000u64 || b == 0x8000_0000_0000_0000u64)),
{
    reveal_strlit("skip_seconds");
    reveal_strlit("window_scale");
    reveal_strlit("volume");
    assert("skip_seconds"@[0] != "window_scale"@[0]);
    reveal_strlit("resume_mode");
    reveal_strlit("window_size_policy");
    assert("volume"@.len() == 6 && "skip_seconds"@.len() == 12 && "window_scale"@.len() == 12
        && "resume_mode"@.len() == 11 && "window_size_policy"@.len() == 18);
}

/// Checks a setting before it is stored.
pub fn validate_setting(key: &str, value: &str, number: Option<u64>) -> (r: Result<(), String>)
    ensures
        view_err(r) == spec_validate_setting(key@, value@, number),
{
    if str_eq(key, "skip_seconds") {
        match parse_u32(value) {
            None => Err(owned("快进秒数格式无效")),
            Some(n) => if 1 <= n && n <= 60 {
                Ok(())
            } else {
                Err(owned("快进秒数必须在 1-60 之间"))
            },
        }
    } else if str_eq(key, "window_scale") {
        match number {
            None => Err(owned("窗口缩放格式无效")),
            Some(b) => if bits_within(b, SCALE_MIN_BITS, SCALE_MAX_BITS) {
                Ok(())
            } else {
                Err(owned("窗口缩放必须在 0.25-3.0 之间"))
            },
        }
    } else if str_eq(key, "resume_mode") {
        if str_eq(value, "start") || str_eq(value, "resume") {
            Ok(())
        } else {
            Err(owned("播放起点设置无效"))
        }
    } else if str_eq(key, "window_size_policy") {
        if str_eq(value, "video") || str_eq(value, "keep") || str_eq(value, "fit") || str_eq(
            value,
            "maximize",
        ) {
            Ok(())
        } else {
            Err(owned("窗口尺寸策略无效"))
        }
    } else if str_eq(key, "volume") {
        match number {
            None => Err(owned("音量格式无效")),
            Some(b) => if bits_within(b, VOLUME_MIN_BITS, VOLUME_MAX_BITS) {
                Ok(())
            } else {
                Err(owned("音量必须在 0-100 之间"))
            },
        }
    } else if str_eq(key, "muted") {
        if str_eq(value, "true") || str_eq(value, "false") {
            Ok(())
        } else {
            Err(owned("静音设置无效"))
        }
    } else {
        Err(owned("未知设置项"))
    }
}

/// Only the stored settings can be read.
pub fn check_setting_key(key: &str) -> (r: Result<(), String>)
    ensures
        view_err(r) == if is_setting_key(key@) {
            Ok(())
        } else {
            Err("未知设置项"@)
        },
{
    if str_eq(key, "skip_seconds") || str_eq(key, "window_scale") || str_eq(key, "resume_mode")
        || str_eq(key, "window_size_policy") || str_eq(key, "volume") || str_eq(key, "muted") {
        Ok(())
    } else {
        Err(owned("未知设置项"))
    }
}

} // verus!
