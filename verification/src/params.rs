//! The two host-visible envelope-time parameters: identity, display
//! formatting, and text parsing. Times are handled in whole microseconds;
//! the host layer maps them to its own normalized storage.
use vstd::prelude::*;

verus! {

/// The automatable parameters, in their stable index order.
#[derive(Clone, Copy, PartialEq, Eq, Structural, Debug)]
pub enum Parameter {
    Attack,
    Release,
}

/// Which parameter a host index denotes, if any.
pub open spec fn spec_parameter_from_index(index: int) -> Option<Parameter> {
    if index == 0 {
        Some(Parameter::Attack)
    } else if index == 1 {
        Some(Parameter::Release)
    } else {
        None
    }
}

/// Maps a host parameter index to a parameter; out-of-range indices map to
/// nothing and their reads and writes are ignored.
pub fn parameter_from_index(index: i32) -> (p: Option<Parameter>)
    ensures
        p == spec_parameter_from_index(index as int),
{
    if index == 0 {
        Some(Parameter::Attack)
    } else if index == 1 {
        Some(Parameter::Release)
    } else {
        None
    }
}

/// The display name of a host parameter index, empty for unknown indices.
pub fn parameter_name(index: i32) -> (name: String)
    ensures
        index == 0 ==> name@ == "attack"@,
        index == 1 ==> name@ == "release"@,
        !(index == 0 || index == 1) ==> name@ == ""@,
{
    if index == 0 {
        "attack".to_owned()
    } else if index == 1 {
        "release".to_owned()
    } else {
        "".to_owned()
    }
}

/// The unit label of a host parameter index: both times display in
/// milliseconds; unknown indices have no label.
pub fn parameter_label(index: i32) -> (label: String)
    ensures
        (index == 0 || index == 1) ==> label@ == "ms"@,
        !(index == 0 || index == 1) ==> label@ == ""@,
{
    if index == 0 || index == 1 {
        "ms".to_owned()
    } else {
        "".to_owned()
    }
}

/// Every parameter the host can address may be automated.
pub fn can_be_automated(_index: i32) -> (r: bool)
    ensures
        r,
{
    true
}

/// Whether a byte is an ASCII decimal digit.
pub open spec fn spec_is_digit(b: u8) -> bool {
    0x30 <= b <= 0x39
}

/// The ASCII decimal digits of `n`, most significant first.
pub open spec fn spec_decimal(n: int) -> Seq<u8>
    recommends
        n >= 0,
    decreases n,
{
    if n < 10 {
        seq![(0x30 + n) as u8]
    } else {
        spec_decimal(n / 10).push((0x30 + n % 10) as u8)
    }
}

/// A time of `h` hundredths of a millisecond displayed in milliseconds with
/// two decimal places, as the host shows it.
pub open spec fn spec_format_hundredths(h: int) -> Seq<u8>
    recommends
        h >= 0,
{
    spec_decimal(h / 100) + seq![0x2eu8, (0x30 + (h / 10) % 10) as u8, (0x30 + h % 10) as u8]
}

/// The ASCII decimal digits of `n`, most significant first.
fn u64_decimal(n: u64) -> (s: Vec<u8>)
    ensures
        s@ == spec_decimal(n as int),
    decreases n,
{
    if n < 10 {
        let mut s: Vec<u8> = Vec::new();
        s.push(0x30 + (n as u8));
        proof {
            assert(s@ =~= spec_decimal(n as int));
        }
        s
    } else {
        let mut s = u64_decimal(n / 10);
        s.push(0x30 + ((n % 10) as u8));
        proof {
            assert(s@ =~= spec_decimal(n as int));
        }
        s
    }
}

/// Formats `h` hundredths of a millisecond as ASCII text in milliseconds
/// with exactly two decimal places.
pub fn format_hundredths(h: u64) -> (s: Vec<u8>)
    ensures
        s@ == spec_format_hundredths(h as int),
{
    let mut s = u64_decimal(h / 100);
    s.push(0x2e);
    s.push(0x30 + (((h / 10) % 10) as u8));
    s.push(0x30 + ((h % 10) as u8));
    proof {
        assert(s@ =~= spec_format_hundredths(h as int));
    }
    s
}

/// The length of the leading run of ASCII digits.
pub open spec fn spec_digit_prefix_len(s: Seq<u8>) -> int
    decreases s.len(),
{
    if s.len() == 0 || !spec_is_digit(s[0]) {
        0
    } else {
        1 + spec_digit_prefix_len(s.skip(1))
    }
}

/// The leading digit run is exactly the first maximal stretch of digits.
proof fn lemma_digit_prefix_characterize(s: Seq<u8>, p: int)
    requires
        0 <= p <= s.len(),
        forall|k: int| 0 <= k < p ==> spec_is_digit(#[trigger] s[k]),
        p < s.len() ==> !spec_is_digit(s[p]),
    ensures
        spec_digit_prefix_len(s) == p,
    decreases s.len(),
{
    if s.len() == 0 {
    } else if !spec_is_digit(s[0]) {
        assert(p == 0);
    } else {
        assert(p >= 1);
        lemma_digit_prefix_characterize(s.skip(1), p - 1);
    }
}

/// The numeric value of a digit string, most significant first.
pub open spec fn spec_digits_val(s: Seq<u8>) -> int
    decreases s.len(),
{
    if s.len() == 0 {
        0
    } else {
        spec_digits_val(s.drop_last()) * 10 + (s.last() - 0x30)
    }
}

/// The first up-to-three fraction digits, scaled to thousandths.
pub open spec fn spec_frac3(s: Seq<u8>) -> int {
    if s.len() >= 3 {
        (s[0] - 0x30) * 100 + (s[1] - 0x30) * 10 + (s[2] - 0x30)
    } else if s.len() == 2 {
        (s[0] - 0x30) * 100 + (s[1] - 0x30) * 10
    } else if s.len() == 1 {
        (s[0] - 0x30) * 100
    } else {
        0
    }
}

/// A well-formed millisecond text: at least one integer digit, then
/// optionally a dot and any number of fraction digits.
pub open spec fn spec_valid_ms_text(s: Seq<u8>) -> bool {
    let p = spec_digit_prefix_len(s);
    &&& p >= 1
    &&& (p == s.len() || (s[p] == 0x2e && forall|k: int|
        p < k < s.len() ==> spec_is_digit(#[trigger] s[k])))
}

/// The microseconds a well-formed millisecond text denotes; fraction digits
/// beyond the third are ignored.
pub open spec fn spec_ms_text_micros(s: Seq<u8>) -> int {
    let p = spec_digit_prefix_len(s);
    spec_digits_val(s.take(p)) * 1000 + (if p < s.len() {
        spec_frac3(s.skip(p + 1))
    } else {
        0
    })
}

/// Whether a byte is an ASCII decimal digit.
fn is_digit_byte(b: u8) -> (r: bool)
    ensures
        r == spec_is_digit(b),
{
    0x30 <= b && b <= 0x39
}

/// Parses a millisecond time text into whole microseconds. Returns nothing
/// — and the caller leaves the parameter unchanged — for text that is not a
/// plain decimal number, or whose integer part is out of range.
pub fn parse_ms_micros(text: &[u8]) -> (r: Option<u64>)
    ensures
        r == (if spec_valid_ms_text(text@) && spec_digits_val(
            text@.take(spec_digit_prefix_len(text@)),
        ) < 10000000000000 {
            Some(spec_ms_text_micros(text@) as u64)
        } else {
            None::<u64>
        }),
{
    let n = text.len();
    let mut p: usize = 0;
    while p < n && is_digit_byte(text[p])
        invariant
            n == text@.len(),
            p <= n,
            forall|k: int| 0 <= k < p ==> spec_is_digit(#[trigger] text@[k]),
        decreases n - p,
    {
        p += 1;
    }
    proof {
        lemma_digit_prefix_characterize(text@, p as int);
    }
    if p == 0 {
        return None;
    }
    // value of the integer digits, with an overflow watch
    let mut acc: u64 = 0;
    let mut over = false;
    let mut i: usize = 0;
    while i < p
        invariant
            n == text@.len(),
            p <= n,
            i <= p,
            forall|k: int| 0 <= k < p ==> spec_is_digit(#[trigger] text@[k]),
            !over ==> acc == spec_digits_val(text@.take(i as int)) && acc < 10000000000000,
            over ==> spec_digits_val(text@.take(i as int)) >= 10000000000000,
        decreases p - i,
    {
        let d: u64 = (text[i] - 0x30) as u64;
        proof {
            assert(text@.take(i + 1).drop_last() =~= text@.take(i as int));
            assert(text@.take(i + 1).last() == text@[i as int]);
        }
        if !over {
            let next: u64 = acc * 10 + d;
            if next >= 10000000000000 {
                over = true;
            } else {
                acc = next;
            }
        }
        i += 1;
    }
    proof {
        assert(text@.take(p as int) =~= text@.take(p as int));
    }
    // the fraction, if any: a dot, then digits only
    let mut frac: u64 = 0;
    if p < n {
        if text[p] != 0x2e {
            return None;
        }
        let mut k: usize = p + 1;
        while k < n
            invariant
                n == text@.len(),
                p + 1 <= k <= n,
                spec_digit_prefix_len(text@) == p,
                forall|kk: int| p < kk < k ==> spec_is_digit(#[trigger] text@[kk]),
            decreases n - k,
        {
            if !is_digit_byte(text[k]) {
                return None;
            }
            k += 1;
        }
        let frac_len = n - (p + 1);
        if frac_len >= 1 {
            frac = frac + ((text[p + 1] - 0x30) as u64) * 100;
        }
        if frac_len >= 2 {
            frac = frac + ((text[p + 2] - 0x30) as u64) * 10;
        }
        if frac_len >= 3 {
            frac = frac + ((text[p + 3] - 0x30) as u64);
        }
        proof {
            assert(spec_frac3(text@.skip(p + 1)) == frac);
        }
    }
    if over {
        return None;
    }
    Some(acc * 1000 + frac)
}

} // verus!
