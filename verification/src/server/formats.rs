//! How the pages write quantities.
use vstd::prelude::*;
use crate::numbers;
use crate::text;

verus! {

/// The units of a size, each 1024 times the one before.
pub open spec fn unit_name(unit: int) -> Seq<char> {
    if unit == 1 {
        "KB"@
    } else if unit == 2 {
        "MB"@
    } else if unit == 3 {
        "GB"@
    } else {
        "TB"@
    }
}

pub open spec fn unit_bytes(unit: int) -> int {
    if unit == 1 {
        0x400
    } else if unit == 2 {
        0x10_0000
    } else if unit == 3 {
        0x4000_0000
    } else {
        0x100_0000_0000
    }
}

/// The largest unit that a size is at least one of, none below a kilobyte.
pub open spec fn unit_of(bytes: int) -> int {
    if bytes >= 0x100_0000_0000 {
        4
    } else if bytes >= 0x4000_0000 {
        3
    } else if bytes >= 0x10_0000 {
        2
    } else if bytes >= 0x400 {
        1
    } else {
        0
    }
}

/// A quotient rounded to the nearest whole number, ties to the even one.
pub open spec fn rounded(a: int, b: int) -> int {
    let q = a / b;
    let r = a % b;
    if 2 * r > b || (2 * r == b && q % 2 == 1) {
        q + 1
    } else {
        q
    }
}

/// A size to two decimals of its unit.
pub open spec fn size_text(bytes: int) -> Seq<char> {
    let unit = unit_of(bytes);
    if unit == 0 {
        text::decimal(bytes) + " B"@
    } else {
        let hundredths = rounded(bytes * 100, unit_bytes(unit));
        text::decimal(hundredths / 100) + "."@ + text::padded(hundredths % 100, 2) + " "@ + unit_name(
            unit,
        )
    }
}

fn hundredths_of(bytes: i64, unit: i64) -> (r: i64)
    requires
        unit == 0x400 || unit == 0x10_0000 || unit == 0x4000_0000 || unit == 0x100_0000_0000,
        bytes >= unit,
    ensures
        r == rounded(bytes * 100, unit as int),
        0 <= r,
{
    let a: i128 = bytes as i128 * 100;
    let b: i128 = unit as i128;
    let q: i128 = a / b;
    let rest: i128 = a % b;
    assert(0 <= q && q <= bytes as i128) by (nonlinear_arith)
        requires
            a == bytes as i128 * 100,
            b >= 0x400,
            q == a / b,
            bytes > 0,
    ;
    if 2 * rest > b || (2 * rest == b && q % 2 == 1) {
        assert(q < i64::MAX) by (nonlinear_arith)
            requires
                a == bytes as i128 * 100,
                b >= 0x400,
                q == a / b,
                0 < bytes <= i64::MAX,
        ;
        (q + 1) as i64
    } else {
        q as i64
    }
}

pub fn human_size(bytes: i64) -> (r: String)
    ensures
        r@ == size_text(bytes as int),
{
    let (unit, name): (i64, &'static str) = if bytes >= 0x100_0000_0000 {
        (0x100_0000_0000, "TB")
    } else if bytes >= 0x4000_0000 {
        (0x4000_0000, "GB")
    } else if bytes >= 0x10_0000 {
        (0x10_0000, "MB")
    } else if bytes >= 0x400 {
        (0x400, "KB")
    } else {
        let mut out = text::dec(bytes);
        out.push_str(" B");
        return out;
    };
    let h = hundredths_of(bytes, unit);
    let mut out = text::dec(h / 100);
    out.push_str(".");
    let cents = text::dec_padded(h % 100, 2);
    out.push_str(cents.as_str());
    out.push_str(" ");
    out.push_str(name);
    out
}

pub open spec fn duration_text(ms: int) -> Seq<char> {
    let secs = numbers::quotient(ms, 1000);
    text::decimal(numbers::quotient(secs, 3600)) + ":"@ + text::padded(
        numbers::quotient(numbers::remainder(secs, 3600), 60),
        2,
    ) + ":"@ + text::padded(numbers::remainder(secs, 60), 2)
}

pub fn human_duration(ms: i64) -> (r: String)
    ensures
        r@ == duration_text(ms as int),
{
    let secs: i64 = numbers::quot(ms, 1000);
    let mut out = text::dec(numbers::quot(secs, 3600));
    out.push_str(":");
    let m = text::dec_padded(numbers::quot(numbers::rem(secs, 3600), 60), 2);
    out.push_str(m.as_str());
    out.push_str(":");
    let s = text::dec_padded(numbers::rem(secs, 60), 2);
    out.push_str(s.as_str());
    out
}

/// Thousandths behind a point, without the zeros at their end.
pub open spec fn fraction_text(thousandths: int) -> Seq<char> {
    if thousandths == 0 {
        ""@
    } else if thousandths % 100 == 0 {
        "."@ + text::padded(thousandths / 100, 1)
    } else if thousandths % 10 == 0 {
        "."@ + text::padded(thousandths / 10, 2)
    } else {
        "."@ + text::padded(thousandths, 3)
    }
}

/// Milliseconds as seconds, in as few decimals as it takes.
pub open spec fn seconds_text(ms: int) -> Seq<char> {
    let m = if ms < 0 {
        -ms
    } else {
        ms
    };
    (if ms < 0 {
        "-"@
    } else {
        ""@
    }) + text::decimal(m / 1000) + fraction_text(m % 1000)
}

fn fraction(thousandths: i64) -> (r: String)
    requires
        0 <= thousandths < 1000,
    ensures
        r@ == fraction_text(thousandths as int),
{
    if thousandths == 0 {
        return "".to_owned();
    }
    let mut out = ".".to_owned();
    let digits = if thousandths % 100 == 0 {
        text::dec_padded(thousandths / 100, 1)
    } else if thousandths % 10 == 0 {
        text::dec_padded(thousandths / 10, 2)
    } else {
        text::dec_padded(thousandths, 3)
    };
    out.push_str(digits.as_str());
    out
}

/// Milliseconds as seconds, for a script.
pub fn seconds(ms: i64) -> (r: String)
    ensures
        r@ == seconds_text(ms as int),
{
    let mut out = if ms < 0 {
        "-".to_owned()
    } else {
        "".to_owned()
    };
    let m: i128 = if ms < 0 {
        -(ms as i128)
    } else {
        ms as i128
    };
    let whole = text::dec_u64((m / 1000) as u64);
    out.push_str(whole.as_str());
    let f = fraction((m % 1000) as i64);
    out.push_str(f.as_str());
    out
}

pub open spec fn uhd(width: Option<i64>, height: Option<i64>) -> bool {
    (width matches Some(w) && w > 1920) || (height matches Some(h) && h > 1080)
}

pub fn is_uhd(width: Option<i64>, height: Option<i64>) -> (r: bool)
    ensures
        r == uhd(width, height),
{
    let wide = match width {
        Some(w) => w > 1920,
        None => false,
    };
    let high = match height {
        Some(h) => h > 1080,
        None => false,
    };
    wide || high
}

// -------------------------------------------------------------------- laws

/// A size is shown in the largest unit that it holds one of, to the nearest
/// hundredth.
pub proof fn sizes_are_shown_to_the_nearest_hundredth(bytes: int, h: int)
    requires
        0 <= bytes,
    ensures
        bytes < 1024 ==> size_text(bytes) == text::decimal(bytes) + " B"@,
        1024 <= bytes < 1_048_576 && -1024 < 2 * (100 * bytes - 1024 * h) < 1024 ==> size_text(bytes)
            == text::decimal(h / 100) + "."@ + text::padded(h % 100, 2) + " "@ + "KB"@,
        1_048_576 <= bytes < 1_073_741_824 && -1_048_576 < 2 * (100 * bytes - 1_048_576 * h)
            < 1_048_576 ==> size_text(bytes) == text::decimal(h / 100) + "."@ + text::padded(
            h % 100,
            2,
        ) + " "@ + "MB"@,
        1_073_741_824 <= bytes < 1_099_511_627_776 && -1_073_741_824 < 2 * (100 * bytes
            - 1_073_741_824 * h) < 1_073_741_824 ==> size_text(bytes) == text::decimal(h / 100)
            + "."@ + text::padded(h % 100, 2) + " "@ + "GB"@,
        1_099_511_627_776 <= bytes && -1_099_511_627_776 < 2 * (100 * bytes - 1_099_511_627_776 * h)
            < 1_099_511_627_776 ==> size_text(bytes) == text::decimal(h / 100) + "."@
            + text::padded(h % 100, 2) + " "@ + "TB"@,
{
}

/// A running time is shown in hours, minutes and seconds; what is less than a
/// second does not count.
pub proof fn running_times_are_clock_times(h: int, m: int, s: int, rest: int)
    requires
        0 <= h,
        0 <= m < 60,
        0 <= s < 60,
        0 <= rest < 1000,
    ensures
        duration_text(1000 * (3600 * h + 60 * m + s) + rest) == text::decimal(h) + ":"@
            + text::padded(m, 2) + ":"@ + text::padded(s, 2),
{
    let ms = 1000 * (3600 * h + 60 * m + s) + rest;
    let secs = 3600 * h + 60 * m + s;
    assert(ms / 1000 == secs);
    assert(secs / 3600 == h);
    assert(secs % 3600 == 60 * m + s);
    assert((60 * m + s) / 60 == m);
    assert(secs % 60 == s) by {
        assert(secs == 60 * (60 * h + m) + s);
    }
}

/// Whole seconds stand alone; a fraction stands behind a point, without the
/// zeros at its end.
pub proof fn seconds_have_few_decimals(s: int, t: int)
    requires
        0 <= s,
        1 <= t <= 9,
    ensures
        seconds_text(1000 * s) == text::decimal(s),
        seconds_text(1000 * s + 100 * t) == text::decimal(s) + "."@ + text::padded(t, 1),
        seconds_text(1000 * s + 10 * t) == text::decimal(s) + "."@ + text::padded(t, 2),
        seconds_text(1000 * s + t) == text::decimal(s) + "."@ + text::padded(t, 3),
{
    reveal_strlit("");
    assert((1000 * s + 100 * t) % 1000 == 100 * t);
    assert((1000 * s + 10 * t) % 1000 == 10 * t);
    assert((1000 * s + t) % 1000 == t);
    let d = text::decimal(s);
    assert(""@ + d + ""@ =~= d);
    assert(""@ + d + ("."@ + text::padded(t, 1)) =~= d + "."@ + text::padded(t, 1));
    assert(""@ + d + ("."@ + text::padded(t, 2)) =~= d + "."@ + text::padded(t, 2));
    assert(""@ + d + ("."@ + text::padded(t, 3)) =~= d + "."@ + text::padded(t, 3));
    assert((10 * t) % 100 != 0 && (10 * t) / 10 == t);
    assert(t % 100 != 0 && t % 10 != 0);
}

/// A picture is 4K where it is larger than full HD in either direction.
pub proof fn uhd_is_larger_than_full_hd(w: i64, h: i64)
    ensures
        uhd(Some(w), Some(h)) <==> w >= 1921 || h >= 1081,
        uhd(Some(w), None) <==> w >= 1921,
        uhd(None, Some(h)) <==> h >= 1081,
        !uhd(None, None),
{
}

} // verus!
