//! Display formatting of counts, durations, sizes and text widths.
use vstd::prelude::*;
use crate::text::{chars_of, decimal, push_all, push_decimal, push_str, slice_vec, string_of};
use vstd::string::StringSliceAdditionalSpecFns;
use vstd::utf8::encode_utf8;

verus! {

/// Decimal digits `d` with a comma before each group of three from the right.
pub open spec fn grouped(d: Seq<char>) -> Seq<char>
    decreases d.len(),
{
    if d.len() <= 3 {
        d
    } else {
        grouped(d.take(d.len() - 3)) + seq![','] + d.skip(d.len() - 3)
    }
}

fn push_grouped(out: &mut Vec<char>, d: &[char], hi: usize)
    requires
        hi <= d@.len(),
    ensures
        final(out)@ == old(out)@ + grouped(d@.take(hi as int)),
    decreases hi,
{
    if hi <= 3 {
        let part = slice_vec(d, 0, hi);
        assert(part@ == d@.take(hi as int));
        push_all(out, &part);
    } else {
        push_grouped(out, d, hi - 3);
        out.push(',');
        let part = slice_vec(d, hi - 3, hi);
        push_all(out, &part);
        assert(d@.take(hi as int).take(hi - 3) == d@.take(hi - 3));
        assert(d@.take(hi as int).skip(hi - 3) == d@.subrange(hi - 3, hi as int));
    }
}

/// `n` with thousands separators, as `1,234,567`.
pub fn format_number(n: usize) -> (r: String)
    ensures
        r@ == grouped(decimal(n as nat)),
{
    let mut d: Vec<char> = Vec::new();
    push_decimal(&mut d, n as u64);
    assert(d@ == decimal(n as nat));
    let mut out: Vec<char> = Vec::new();
    push_grouped(&mut out, &d, d.len());
    assert(d@.take(d@.len() as int) == d@);
    string_of(&out)
}

/// A number of seconds as `45s`, `1m 30s` or `1h 1m`.
pub open spec fn duration_text(s: nat) -> Seq<char> {
    if s < 60 {
        decimal(s) + "s"@
    } else if s < 3600 {
        decimal(s / 60) + "m "@ + decimal(s % 60) + "s"@
    } else {
        decimal(s / 3600) + "h "@ + decimal((s % 3600) / 60) + "m"@
    }
}

pub fn format_duration(seconds: u64) -> (r: String)
    ensures
        r@ == duration_text(seconds as nat),
{
    let mut out: Vec<char> = Vec::new();
    if seconds < 60 {
        push_decimal(&mut out, seconds);
        push_str(&mut out, "s");
    } else if seconds < 3600 {
        push_decimal(&mut out, seconds / 60);
        push_str(&mut out, "m ");
        push_decimal(&mut out, seconds % 60);
        push_str(&mut out, "s");
    } else {
        push_decimal(&mut out, seconds / 3600);
        push_str(&mut out, "h ");
        push_decimal(&mut out, (seconds % 3600) / 60);
        push_str(&mut out, "m");
    }
    string_of(&out)
}

/// An age in seconds as `<1 min`, `N mins ago`, `1 hr ago` and so on.
pub open spec fn relative_time_text(s: nat) -> Seq<char> {
    if s < 60 {
        "<1 min"@
    } else if s < 120 {
        "1 min ago"@
    } else if s < 3600 {
        decimal(s / 60) + " mins ago"@
    } else if s < 7200 {
        "1 hr ago"@
    } else if s < 86400 {
        decimal(s / 3600) + " hrs ago"@
    } else if s < 172800 {
        "1 day ago"@
    } else {
        decimal(s / 86400) + " days ago"@
    }
}

/// How long ago something happened, given the elapsed seconds.
pub fn format_relative_time(seconds: u64) -> (r: String)
    ensures
        r@ == relative_time_text(seconds as nat),
{
    let mut out: Vec<char> = Vec::new();
    if seconds < 60 {
        push_str(&mut out, "<1 min");
    } else if seconds < 120 {
        push_str(&mut out, "1 min ago");
    } else if seconds < 3600 {
        push_decimal(&mut out, seconds / 60);
        push_str(&mut out, " mins ago");
    } else if seconds < 7200 {
        push_str(&mut out, "1 hr ago");
    } else if seconds < 86400 {
        push_decimal(&mut out, seconds / 3600);
        push_str(&mut out, " hrs ago");
    } else if seconds < 172800 {
        push_str(&mut out, "1 day ago");
    } else {
        push_decimal(&mut out, seconds / 86400);
        push_str(&mut out, " days ago");
    }
    assert(out@ =~= relative_time_text(seconds as nat));
    string_of(&out)
}

pub open spec fn pow1024(e: nat) -> nat
    decreases e,
{
    if e == 0 {
        1
    } else {
        1024 * pow1024((e - 1) as nat)
    }
}

/// The unit of a size: the largest power of 1024, up to the fourth, not above it.
pub open spec fn size_unit(b: nat) -> nat {
    if b >= pow1024(4) {
        4
    } else if b >= pow1024(3) {
        3
    } else if b >= pow1024(2) {
        2
    } else if b >= pow1024(1) {
        1
    } else {
        0
    }
}

pub open spec fn unit_name(e: nat) -> Seq<char> {
    if e == 0 {
        "B"@
    } else if e == 1 {
        "KB"@
    } else if e == 2 {
        "MB"@
    } else if e == 3 {
        "GB"@
    } else {
        "TB"@
    }
}

/// Two digits of `n`, with a leading zero below ten.
pub open spec fn two_digits(n: nat) -> Seq<char> {
    if n < 10 {
        seq!['0'] + decimal(n)
    } else {
        decimal(n)
    }
}

/// A size in bytes in its unit with two decimals, rounded half up.
pub open spec fn bytes_text(b: nat) -> Seq<char> {
    if b == 0 {
        "0 B"@
    } else {
        let e = size_unit(b);
        let d = pow1024(e);
        let h = (b * 100 + d / 2) / d;
        decimal(h / 100) + seq!['.'] + two_digits(h % 100) + seq![' '] + unit_name(e)
    }
}

pub fn format_bytes(bytes: u64) -> (r: String)
    ensures
        r@ == bytes_text(bytes as nat),
{
    if bytes == 0 {
        return "0 B".to_owned();
    }
    proof {
        assert(pow1024(0) == 1);
        assert(pow1024(1) == 1024);
        assert(pow1024(2) == 1048576);
        assert(pow1024(3) == 1073741824);
        assert(pow1024(4) == 1099511627776);
    }
    let (e, d): (u64, u128) = if bytes >= 1099511627776 {
        (4, 1099511627776)
    } else if bytes >= 1073741824 {
        (3, 1073741824)
    } else if bytes >= 1048576 {
        (2, 1048576)
    } else if bytes >= 1024 {
        (1, 1024)
    } else {
        (0, 1)
    };
    assert(d as nat == pow1024(size_unit(bytes as nat)) && e as nat == size_unit(bytes as nat));
    let h: u128 = ((bytes as u128) * 100 + d / 2) / d;
    assert(h / 100 <= bytes) by (nonlinear_arith)
        requires
            h as int == (bytes as int * 100 + d as int / 2) / d as int,
            d >= 1,
            bytes >= 1,
    {
    }
    let whole = (h / 100) as u64;
    let frac = (h % 100) as u64;
    let mut out: Vec<char> = Vec::new();
    push_decimal(&mut out, whole);
    out.push('.');
    if frac < 10 {
        out.push('0');
    }
    push_decimal(&mut out, frac);
    out.push(' ');
    let unit = if e == 0 {
        "B"
    } else if e == 1 {
        "KB"
    } else if e == 2 {
        "MB"
    } else if e == 3 {
        "GB"
    } else {
        "TB"
    };
    push_str(&mut out, unit);
    assert(out@ =~= bytes_text(bytes as nat));
    string_of(&out)
}

/// `text` cut to at most `max_len` bytes: when longer, the first
/// `max_len - 3` bytes followed by `...`, or `...` alone when `max_len` is 3
/// or less.
pub fn truncate(text: &str, max_len: usize) -> (r: String)
    requires
        text.len() > max_len && max_len > 3 ==> text.is_char_boundary((max_len - 3) as usize),
    ensures
        text.len() <= max_len ==> r@ == text@,
        text.len() > max_len && max_len <= 3 ==> r@ == "..."@,
        text.len() > max_len && max_len > 3 ==> exists|h: Seq<char>|
            r@ == h + "..."@ && #[trigger] encode_utf8(h) == text.spec_bytes().subrange(0, max_len - 3),
{
    if text.len() <= max_len {
        text.to_owned()
    } else if max_len <= 3 {
        "...".to_owned()
    } else {
        let (head, _) = text.split_at(max_len - 3);
        let mut out = chars_of(head);
        push_str(&mut out, "...");
        assert(encode_utf8(head@) == text.spec_bytes().subrange(0, max_len - 3));
        assert(out@ == head@ + "..."@);
        string_of(&out)
    }
}

/// `text` padded with spaces to `width` characters when it is under `width`
/// bytes, else cut as by `truncate`.
pub fn pad_or_truncate(text: &str, width: usize) -> (r: String)
    requires
        text.len() > width && width > 3 ==> text.is_char_boundary((width - 3) as usize),
    ensures
        text.len() == width ==> r@ == text@,
        text.len() > width && width <= 3 ==> r@ == "..."@,
        text.len() > width && width > 3 ==> exists|h: Seq<char>|
            r@ == h + "..."@ && #[trigger] encode_utf8(h) == text.spec_bytes().subrange(0, width - 3),
        text.len() < width ==> r@ == text@ + Seq::new(
            (if text@.len() < width { width - text@.len() } else { 0 }) as nat,
            |i: int| ' ',
        ),
{
    if text.len() >= width {
        return truncate(text, width);
    }
    let c = chars_of(text);
    let mut out = c;
    let ghost base = out@;
    while out.len() < width
        invariant
            base == text@,
            base.len() <= out@.len(),
            out@.len() <= width || out@.len() == base.len(),
            out@ == base + Seq::new((out@.len() - base.len()) as nat, |i: int| ' '),
        decreases width - out.len(),
    {
        out.push(' ');
        assert(out@ =~= base + Seq::new((out@.len() - base.len()) as nat, |i: int| ' '));
    }
    assert(out@ =~= text@ + Seq::new(
        (if text@.len() < width { width - text@.len() } else { 0 }) as nat,
        |i: int| ' ',
    ));
    string_of(&out)
}

} // verus!

verus! {

/// `n` divided by `d`, rounded half up.
pub open spec fn div_round(n: nat, d: nat) -> nat {
    if d == 0 {
        0
    } else {
        (n + d / 2) / d
    }
}

/// A duration given in microseconds: under a millisecond with two decimals
/// in `ms`, under a second with one decimal in `ms`, else with two decimals in `s`.
pub open spec fn ms_text(us: nat) -> Seq<char> {
    if us < 1000 {
        let h = div_round(us, 10);
        decimal(h / 100) + seq!['.'] + two_digits(h % 100) + "ms"@
    } else if us < 1_000_000 {
        let t = div_round(us, 100);
        decimal(t / 10) + seq!['.'] + decimal(t % 10) + "ms"@
    } else {
        let h = div_round(us, 10_000);
        decimal(h / 100) + seq!['.'] + two_digits(h % 100) + "s"@
    }
}

fn push_fixed(out: &mut Vec<char>, v: u64, d: u64, places2: bool)
    requires
        d >= 1,
    ensures
        final(out)@ == old(out)@ + ({
            let h = div_round(v as nat, d as nat);
            if places2 {
                decimal(h / 100) + seq!['.'] + two_digits(h % 100)
            } else {
                decimal(h / 10) + seq!['.'] + decimal(h % 10)
            }
        }),
{
    let h: u128 = ((v as u128) + (d as u128) / 2) / (d as u128);
    assert(h <= v as int + 1) by (nonlinear_arith)
        requires
            h as int == (v as int + d as int / 2) / d as int,
            d >= 1,
    {
    }
    let ghost before = out@;
    if places2 {
        push_decimal(out, (h / 100) as u64);
        out.push('.');
        let f = (h % 100) as u64;
        if f < 10 {
            out.push('0');
        }
        push_decimal(out, f);
        assert(out@ =~= before + (decimal((h / 100) as nat) + seq!['.'] + two_digits((h % 100) as nat)));
    } else {
        push_decimal(out, (h / 10) as u64);
        out.push('.');
        push_decimal(out, (h % 10) as u64);
        assert(out@ =~= before + (decimal((h / 10) as nat) + seq!['.'] + decimal((h % 10) as nat)));
    }
}

/// A duration in microseconds as `0.50ms`, `50.0ms` or `1.50s`.
pub fn format_ms(duration_us: u64) -> (r: String)
    ensures
        r@ == ms_text(duration_us as nat),
{
    let mut out: Vec<char> = Vec::new();
    if duration_us < 1000 {
        push_fixed(&mut out, duration_us, 10, true);
        push_str(&mut out, "ms");
    } else if duration_us < 1_000_000 {
        push_fixed(&mut out, duration_us, 100, false);
        push_str(&mut out, "ms");
    } else {
        push_fixed(&mut out, duration_us, 10_000, true);
        push_str(&mut out, "s");
    }
    assert(out@ =~= ms_text(duration_us as nat));
    string_of(&out)
}

} // verus!
