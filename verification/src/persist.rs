//! The queue's durable text form: a stable, human-diffable encoding of
//! the ordered command list, and its strict parser.
//!
//! Each command is one record: `+` or `-` for the enabled flag, the
//! filter's lower-case tag, its parameters as decimal numbers each
//! preceded by a single space, and a closing `;`. For example:
//! `+brightness 200;-invert;+resize pixels 128 128;`. An unseeded noise
//! filter writes no seed; a seeded one writes it as a second number.
//! Parsing accepts exactly this form — unknown tags, out-of-range
//! parameters, stray bytes and truncated records all fail — and
//! round-trips every queue: parsing a serialized queue gives back the
//! same commands.

use vstd::prelude::*;
use crate::error::ErrorKind;
use crate::filter::{ImageFilter, ResizeOption};
use crate::queue::{CommandQueue, FilterCommand, valid_cmds};
use vstd::string::StringSliceAdditionalSpecFns;
use vstd::arithmetic::div_mod::{lemma_div_decreases, lemma_fundamental_div_mod};

verus! {

// ---------------------------------------------------------------------
// Serialization
// ---------------------------------------------------------------------
/// The decimal digits of `n`, most significant first, no leading zeros.
pub open spec fn dec_digits(n: nat) -> Seq<u8>
    decreases n,
{
    if n < 10 {
        seq![(48 + n) as u8]
    } else {
        dec_digits(n / 10).push((48 + n % 10) as u8)
    }
}

/// A single space followed by the decimal digits of `n`.
pub open spec fn sp_num(n: nat) -> Seq<u8> {
    seq![32u8] + dec_digits(n)
}

/// Every byte is ASCII.
pub open spec fn ascii_bytes(s: Seq<u8>) -> bool {
    forall|i: int| 0 <= i < s.len() ==> s[i] < 128
}

pub open spec fn tag_jpeg() -> Seq<u8> {
    seq![106u8, 112u8, 101u8, 103u8]
}

pub open spec fn tag_brightness() -> Seq<u8> {
    seq![98u8, 114u8, 105u8, 103u8, 104u8, 116u8, 110u8, 101u8, 115u8, 115u8]
}

pub open spec fn tag_sharpen() -> Seq<u8> {
    seq![115u8, 104u8, 97u8, 114u8, 112u8, 101u8, 110u8]
}

pub open spec fn tag_boxblur() -> Seq<u8> {
    seq![98u8, 111u8, 120u8, 98u8, 108u8, 117u8, 114u8]
}

pub open spec fn tag_gaussianblur() -> Seq<u8> {
    seq![103u8, 97u8, 117u8, 115u8, 115u8, 105u8, 97u8, 110u8, 98u8, 108u8, 117u8, 114u8]
}

pub open spec fn tag_saturate() -> Seq<u8> {
    seq![115u8, 97u8, 116u8, 117u8, 114u8, 97u8, 116u8, 101u8]
}

pub open spec fn tag_noise() -> Seq<u8> {
    seq![110u8, 111u8, 105u8, 115u8, 101u8]
}

pub open spec fn tag_resize() -> Seq<u8> {
    seq![114u8, 101u8, 115u8, 105u8, 122u8, 101u8]
}

pub open spec fn tag_pixels() -> Seq<u8> {
    seq![112u8, 105u8, 120u8, 101u8, 108u8, 115u8]
}

pub open spec fn tag_percent() -> Seq<u8> {
    seq![112u8, 101u8, 114u8, 99u8, 101u8, 110u8, 116u8]
}

pub open spec fn tag_invert() -> Seq<u8> {
    seq![105u8, 110u8, 118u8, 101u8, 114u8, 116u8]
}

/// One filter's tag and parameters.
pub open spec fn ser_filter(f: ImageFilter) -> Seq<u8> {
    match f {
        ImageFilter::JpegCompression { quality } => tag_jpeg() + sp_num(quality as nat),
        ImageFilter::Brightness { percentage } => tag_brightness() + sp_num(percentage as nat),
        ImageFilter::Sharpen { strength } => tag_sharpen() + sp_num(strength as nat),
        ImageFilter::BoxBlur => tag_boxblur(),
        ImageFilter::GaussianBlur { sigma_centi } => tag_gaussianblur() + sp_num(sigma_centi as nat),
        ImageFilter::Saturate { percentage } => tag_saturate() + sp_num(percentage as nat),
        ImageFilter::Noise { strength, seed } => tag_noise() + sp_num(strength as nat) + (match seed {
            Some(sd) => sp_num(sd as nat),
            None => Seq::<u8>::empty(),
        }),
        ImageFilter::Resize { size } => match size {
            ResizeOption::Pixels(w, h) => tag_resize() + seq![32u8] + tag_pixels() + sp_num(w as nat)
                + sp_num(h as nat),
            ResizeOption::Percentage(fx, fy) => tag_resize() + seq![32u8] + tag_percent() + sp_num(
                fx as nat,
            ) + sp_num(fy as nat),
        },
        ImageFilter::Invert => tag_invert(),
    }
}

/// One command's record: the sign, the filter, and the closing `;`.
pub open spec fn ser_cmd(c: FilterCommand) -> Seq<u8> {
    seq![if c.enabled { 43u8 } else { 45u8 }] + ser_filter(c.filter) + seq![59u8]
}

/// The whole queue, record after record.
pub open spec fn ser_cmds(s: Seq<FilterCommand>) -> Seq<u8>
    decreases s.len(),
{
    if s.len() == 0 {
        Seq::<u8>::empty()
    } else {
        ser_cmd(s[0]) + ser_cmds(s.drop_first())
    }
}

/// Append the decimal digits of `n`.
fn push_num(out: &mut Vec<u8>, n: u64)
    ensures
        final(out)@ == old(out)@ + dec_digits(n as nat),
        forall|i: int| old(out)@.len() <= i < final(out)@.len() ==> final(out)@[i] < 128,
    decreases n,
{
    if n >= 10 {
        push_num(out, n / 10);
        proof {
            lemma_div_decreases(n as int, 10);
        }
        out.push((48 + (n % 10) as u8));
        assert(final(out)@ =~= old(out)@ + dec_digits(n as nat));
    } else {
        out.push(48 + n as u8);
        assert(final(out)@ =~= old(out)@ + dec_digits(n as nat));
    }
}

/// Append a space and the decimal digits of `n`.
fn push_sp_num(out: &mut Vec<u8>, n: u64)
    ensures
        final(out)@ == old(out)@ + sp_num(n as nat),
        forall|i: int| old(out)@.len() <= i < final(out)@.len() ==> final(out)@[i] < 128,
{
    out.push(32);
    push_num(out, n);
    assert(final(out)@ =~= old(out)@ + sp_num(n as nat));
}

/// Append one filter's tag and parameters.
fn push_filter(out: &mut Vec<u8>, f: &ImageFilter)
    ensures
        final(out)@ == old(out)@ + ser_filter(*f),
        forall|i: int| old(out)@.len() <= i < final(out)@.len() ==> final(out)@[i] < 128,
{
    match f {
        ImageFilter::JpegCompression { quality } => {
            out.push(106u8);
            out.push(112u8);
            out.push(101u8);
            out.push(103u8);
            push_sp_num(out, *quality as u64);
        },
        ImageFilter::Brightness { percentage } => {
            out.push(98u8);
            out.push(114u8);
            out.push(105u8);
            out.push(103u8);
            out.push(104u8);
            out.push(116u8);
            out.push(110u8);
            out.push(101u8);
            out.push(115u8);
            out.push(115u8);
            push_sp_num(out, *percentage as u64);
        },
        ImageFilter::Sharpen { strength } => {
            out.push(115u8);
            out.push(104u8);
            out.push(97u8);
            out.push(114u8);
            out.push(112u8);
            out.push(101u8);
            out.push(110u8);
            push_sp_num(out, *strength as u64);
        },
        ImageFilter::BoxBlur => {
            out.push(98u8);
            out.push(111u8);
            out.push(120u8);
            out.push(98u8);
            out.push(108u8);
            out.push(117u8);
            out.push(114u8);
        },
        ImageFilter::GaussianBlur { sigma_centi } => {
            out.push(103u8);
            out.push(97u8);
            out.push(117u8);
            out.push(115u8);
            out.push(115u8);
            out.push(105u8);
            out.push(97u8);
            out.push(110u8);
            out.push(98u8);
            out.push(108u8);
            out.push(117u8);
            out.push(114u8);
            push_sp_num(out, *sigma_centi as u64);
        },
        ImageFilter::Saturate { percentage } => {
            out.push(115u8);
            out.push(97u8);
            out.push(116u8);
            out.push(117u8);
            out.push(114u8);
            out.push(97u8);
            out.push(116u8);
            out.push(101u8);
            push_sp_num(out, *percentage as u64);
        },
        ImageFilter::Noise { strength, seed } => {
            out.push(110u8);
            out.push(111u8);
            out.push(105u8);
            out.push(115u8);
            out.push(101u8);
            push_sp_num(out, *strength as u64);
            match seed {
                Some(sd) => {
                    push_sp_num(out, *sd);
                },
                None => {},
            }
        },
        ImageFilter::Resize { size } => {
            out.push(114u8);
            out.push(101u8);
            out.push(115u8);
            out.push(105u8);
            out.push(122u8);
            out.push(101u8);
            out.push(32);
            match size {
                ResizeOption::Pixels(w, h) => {
                    out.push(112u8);
                    out.push(105u8);
                    out.push(120u8);
                    out.push(101u8);
                    out.push(108u8);
                    out.push(115u8);
                    push_sp_num(out, *w as u64);
                    push_sp_num(out, *h as u64);
                },
                ResizeOption::Percentage(fx, fy) => {
                    out.push(112u8);
                    out.push(101u8);
                    out.push(114u8);
                    out.push(99u8);
                    out.push(101u8);
                    out.push(110u8);
                    out.push(116u8);
                    push_sp_num(out, *fx as u64);
                    push_sp_num(out, *fy as u64);
                },
            }
        },
        ImageFilter::Invert => {
            out.push(105u8);
            out.push(110u8);
            out.push(118u8);
            out.push(101u8);
            out.push(114u8);
            out.push(116u8);
        },
    }
    assert(final(out)@ =~= old(out)@ + ser_filter(*f));
}

/// Serialize a command list to bytes.
pub fn serialize_cmds(cmds: &Vec<FilterCommand>) -> (r: Vec<u8>)
    ensures
        r@ == ser_cmds(cmds@),
        ascii_bytes(r@),
{
    let n = cmds.len();
    let mut out: Vec<u8> = Vec::new();
    let mut i: usize = 0;
    proof {
        assert(cmds@.skip(0) =~= cmds@);
    }
    while i < n
        invariant
            n == cmds@.len(),
            i <= n,
            out@ + ser_cmds(cmds@.skip(i as int)) == ser_cmds(cmds@),
            ascii_bytes(out@),
        decreases n - i,
    {
        let ghost pre = out@;
        let c = cmds[i];
        out.push(if c.enabled { 43u8 } else { 45u8 });
        push_filter(&mut out, &c.filter);
        out.push(59u8);
        proof {
            assert(out@ =~= pre + ser_cmd(c));
            assert(cmds@.skip(i as int)[0] == cmds@[i as int]);
            assert(cmds@.skip(i as int).drop_first() =~= cmds@.skip(i as int + 1));
            assert(ser_cmds(cmds@.skip(i as int)) == ser_cmd(c) + ser_cmds(
                cmds@.skip(i as int + 1),
            ));
            assert(out@ + ser_cmds(cmds@.skip(i as int + 1)) =~= pre + ser_cmds(
                cmds@.skip(i as int),
            ));
        }
        i += 1;
    }
    proof {
        assert(cmds@.skip(n as int) =~= Seq::<FilterCommand>::empty());
        assert(out@ + ser_cmds(cmds@.skip(n as int)) =~= out@);
    }
    out
}

} // verus!

verus! {

// ---------------------------------------------------------------------
// Parsing
// ---------------------------------------------------------------------
pub open spec fn is_digit(b: u8) -> bool {
    48 <= b <= 57
}

pub open spec fn is_letter(b: u8) -> bool {
    97 <= b <= 122
}

/// The end of the run of decimal digits starting at `off`.
pub open spec fn digits_end(s: Seq<u8>, off: int) -> int
    decreases s.len() - off,
{
    if off < 0 || off >= s.len() || !is_digit(s[off]) {
        off
    } else {
        digits_end(s, off + 1)
    }
}

/// The end of the run of lower-case letters starting at `off`.
pub open spec fn letters_end(s: Seq<u8>, off: int) -> int
    decreases s.len() - off,
{
    if off < 0 || off >= s.len() || !is_letter(s[off]) {
        off
    } else {
        letters_end(s, off + 1)
    }
}

/// The value of the digits `s[a..b)`, most significant first.
pub open spec fn num_val_range(s: Seq<u8>, a: int, b: int) -> int
    decreases b - a,
{
    if b <= a {
        0
    } else {
        num_val_range(s, a, b - 1) * 10 + (s[b - 1] - 48)
    }
}

/// Parse a decimal number at `off`: at least one digit, no leading
/// zeros, value within `u64`. Yields the value and the position after
/// the digits.
pub open spec fn parse_num(s: Seq<u8>, off: int) -> Option<(u64, int)> {
    let e = digits_end(s, off);
    if e == off {
        None
    } else if s[off] == 48 && e > off + 1 {
        None
    } else if num_val_range(s, off, e) > u64::MAX {
        None
    } else {
        Some((num_val_range(s, off, e) as u64, e))
    }
}

/// Parse one space followed by a decimal number.
pub open spec fn parse_sp_num(s: Seq<u8>, off: int) -> Option<(u64, int)> {
    if 0 <= off < s.len() && s[off] == 32 {
        parse_num(s, off + 1)
    } else {
        None
    }
}

/// Parse a filter's tag and parameters at `off`. Unknown tags and
/// out-of-range parameters fail.
pub open spec fn parse_filter(s: Seq<u8>, off: int) -> Option<(ImageFilter, int)> {
    let e = letters_end(s, off);
    let tl = e - off;
    if tl == 4 && s[off] == 106 && s[off + 1] == 112 && s[off + 2] == 101 && s[off + 3] == 103 {
        match parse_sp_num(s, e) {
            Some((v, e2)) => if 1 <= v <= 100 {
                Some((ImageFilter::JpegCompression { quality: v as u8 }, e2))
            } else {
                None
            },
            None => None,
        }
    } else if tl == 10 && s[off] == 98 && s[off + 1] == 114 && s[off + 2] == 105 && s[off + 3]
        == 103 && s[off + 4] == 104 && s[off + 5] == 116 && s[off + 6] == 110 && s[off + 7] == 101
        && s[off + 8] == 115 && s[off + 9] == 115 {
        match parse_sp_num(s, e) {
            Some((v, e2)) => if v <= 200 {
                Some((ImageFilter::Brightness { percentage: v as u8 }, e2))
            } else {
                None
            },
            None => None,
        }
    } else if tl == 7 && s[off] == 115 && s[off + 1] == 104 && s[off + 2] == 97 && s[off + 3] == 114
        && s[off + 4] == 112 && s[off + 5] == 101 && s[off + 6] == 110 {
        match parse_sp_num(s, e) {
            Some((v, e2)) => if v <= 200 {
                Some((ImageFilter::Sharpen { strength: v as u8 }, e2))
            } else {
                None
            },
            None => None,
        }
    } else if tl == 7 && s[off] == 98 && s[off + 1] == 111 && s[off + 2] == 120 && s[off + 3] == 98
        && s[off + 4] == 108 && s[off + 5] == 117 && s[off + 6] == 114 {
        Some((ImageFilter::BoxBlur, e))
    } else if tl == 12 && s[off] == 103 && s[off + 1] == 97 && s[off + 2] == 117 && s[off + 3]
        == 115 && s[off + 4] == 115 && s[off + 5] == 105 && s[off + 6] == 97 && s[off + 7] == 110
        && s[off + 8] == 98 && s[off + 9] == 108 && s[off + 10] == 117 && s[off + 11] == 114 {
        match parse_sp_num(s, e) {
            Some((v, e2)) => if v <= 500 {
                Some((ImageFilter::GaussianBlur { sigma_centi: v as u32 }, e2))
            } else {
                None
            },
            None => None,
        }
    } else if tl == 8 && s[off] == 115 && s[off + 1] == 97 && s[off + 2] == 116 && s[off + 3] == 117
        && s[off + 4] == 114 && s[off + 5] == 97 && s[off + 6] == 116 && s[off + 7] == 101 {
        match parse_sp_num(s, e) {
            Some((v, e2)) => if v <= 400 {
                Some((ImageFilter::Saturate { percentage: v as u16 }, e2))
            } else {
                None
            },
            None => None,
        }
    } else if tl == 5 && s[off] == 110 && s[off + 1] == 111 && s[off + 2] == 105 && s[off + 3]
        == 115 && s[off + 4] == 101 {
        match parse_sp_num(s, e) {
            Some((st, e2)) => if st <= 100 {
                match parse_sp_num(s, e2) {
                    Some((sd, e3)) => Some(
                        (ImageFilter::Noise { strength: st as u8, seed: Some(sd) }, e3),
                    ),
                    None => Some((ImageFilter::Noise { strength: st as u8, seed: None }, e2)),
                }
            } else {
                None
            },
            None => None,
        }
    } else if tl == 6 && s[off] == 114 && s[off + 1] == 101 && s[off + 2] == 115 && s[off + 3]
        == 105 && s[off + 4] == 122 && s[off + 5] == 101 {
        parse_resize_mode(s, e)
    } else if tl == 6 && s[off] == 105 && s[off + 1] == 110 && s[off + 2] == 118 && s[off + 3]
        == 101 && s[off + 4] == 114 && s[off + 5] == 116 {
        Some((ImageFilter::Invert, e))
    } else {
        None
    }
}

/// Parse a resize mode (after the `resize` tag): a space, `pixels` or
/// `percent`, and two numbers.
pub open spec fn parse_resize_mode(s: Seq<u8>, off: int) -> Option<(ImageFilter, int)> {
    if 0 <= off < s.len() && s[off] == 32 {
        let a = off + 1;
        let e2 = letters_end(s, a);
        let tl = e2 - a;
        if tl == 6 && s[a] == 112 && s[a + 1] == 105 && s[a + 2] == 120 && s[a + 3] == 101 && s[a
            + 4] == 108 && s[a + 5] == 115 {
            match parse_sp_num(s, e2) {
                Some((w, e3)) => if w <= u32::MAX {
                    match parse_sp_num(s, e3) {
                        Some((h, e4)) => if h <= u32::MAX {
                            Some(
                                (
                                    ImageFilter::Resize {
                                        size: ResizeOption::Pixels(w as u32, h as u32),
                                    },
                                    e4,
                                ),
                            )
                        } else {
                            None
                        },
                        None => None,
                    }
                } else {
                    None
                },
                None => None,
            }
        } else if tl == 7 && s[a] == 112 && s[a + 1] == 101 && s[a + 2] == 114 && s[a + 3] == 99
            && s[a + 4] == 101 && s[a + 5] == 110 && s[a + 6] == 116 {
            match parse_sp_num(s, e2) {
                Some((fx, e3)) => if fx <= 1000 {
                    match parse_sp_num(s, e3) {
                        Some((fy, e4)) => if fy <= 1000 {
                            Some(
                                (
                                    ImageFilter::Resize {
                                        size: ResizeOption::Percentage(fx as u32, fy as u32),
                                    },
                                    e4,
                                ),
                            )
                        } else {
                            None
                        },
                        None => None,
                    }
                } else {
                    None
                },
                None => None,
            }
        } else {
            None
        }
    } else {
        None
    }
}

/// Parse one command record: the sign, the filter, the closing `;`.
pub open spec fn parse_cmd(s: Seq<u8>, off: int) -> Option<(FilterCommand, int)> {
    if 0 <= off < s.len() && (s[off] == 43 || s[off] == 45) {
        let enabled = s[off] == 43;
        match parse_filter(s, off + 1) {
            Some((f, e)) => if e < s.len() && s[e] == 59 {
                Some((FilterCommand { enabled, filter: f }, e + 1))
            } else {
                None
            },
            None => None,
        }
    } else {
        None
    }
}

/// Parse command records from `off` to the end of the input.
pub open spec fn parse_cmds_from(s: Seq<u8>, off: int) -> Option<Seq<FilterCommand>>
    decreases s.len() - off,
{
    if off == s.len() {
        Some(Seq::<FilterCommand>::empty())
    } else {
        match parse_cmd(s, off) {
            Some((c, e)) => if off < e <= s.len() {
                match parse_cmds_from(s, e) {
                    Some(rest) => Some(seq![c] + rest),
                    None => None,
                }
            } else {
                None
            },
            None => None,
        }
    }
}

/// Parse a whole serialized queue.
pub open spec fn parse_cmds(s: Seq<u8>) -> Option<Seq<FilterCommand>> {
    parse_cmds_from(s, 0)
}

} // verus!

verus! {

// ---------------------------------------------------------------------
// The executable parser
// ---------------------------------------------------------------------
/// The digit run starting at `off` is in bounds, all digits, and ends at
/// the end of input or a non-digit.
proof fn lemma_digits_end_props(s: Seq<u8>, off: int)
    requires
        0 <= off <= s.len(),
    ensures
        off <= digits_end(s, off) <= s.len(),
        forall|i: int| off <= i < digits_end(s, off) ==> is_digit(s[i]),
        digits_end(s, off) == s.len() || !is_digit(s[digits_end(s, off)]),
    decreases s.len() - off,
{
    if off < s.len() && is_digit(s[off]) {
        lemma_digits_end_props(s, off + 1);
    }
}

/// The value of a digit range is nonnegative and grows with its length.
proof fn lemma_num_val_mono(s: Seq<u8>, a: int, b: int, c: int)
    requires
        a <= b <= c,
        forall|i: int| a <= i < c ==> is_digit(s[i]),
    ensures
        0 <= num_val_range(s, a, b) <= num_val_range(s, a, c),
    decreases c - b,
{
    if b == c {
        lemma_num_val_nonneg(s, a, b);
    } else {
        lemma_num_val_mono(s, a, b, c - 1);
        lemma_num_val_nonneg(s, a, c - 1);
    }
}

proof fn lemma_num_val_nonneg(s: Seq<u8>, a: int, b: int)
    requires
        forall|i: int| a <= i < b ==> is_digit(s[i]),
    ensures
        0 <= num_val_range(s, a, b),
    decreases b - a,
{
    if b > a {
        lemma_num_val_nonneg(s, a, b - 1);
    }
}

/// Scan to the end of the digit run starting at `off`.
fn e_digits_end(s: &Vec<u8>, off: usize) -> (r: usize)
    requires
        off <= s@.len(),
    ensures
        r == digits_end(s@, off as int),
        off <= r <= s@.len(),
{
    let n = s.len();
    let mut j = off;
    while j < n
        invariant_except_break
            off <= j <= n,
            n == s@.len(),
            digits_end(s@, off as int) == digits_end(s@, j as int),
        ensures
            off <= j <= n,
            n == s@.len(),
            digits_end(s@, off as int) == digits_end(s@, j as int),
            j == n || !is_digit(s@[j as int]),
        decreases n - j,
    {
        let b = s[j];
        if !(48 <= b && b <= 57) {
            break;
        }
        proof {
            assert(digits_end(s@, j as int) == digits_end(s@, j as int + 1));
        }
        j += 1;
    }
    proof {
        assert(digits_end(s@, j as int) == j);
    }
    j
}

/// Scan to the end of the letter run starting at `off`.
fn e_letters_end(s: &Vec<u8>, off: usize) -> (r: usize)
    requires
        off <= s@.len(),
    ensures
        r == letters_end(s@, off as int),
        off <= r <= s@.len(),
{
    let n = s.len();
    let mut j = off;
    while j < n
        invariant_except_break
            off <= j <= n,
            n == s@.len(),
            letters_end(s@, off as int) == letters_end(s@, j as int),
        ensures
            off <= j <= n,
            n == s@.len(),
            letters_end(s@, off as int) == letters_end(s@, j as int),
            j == n || !is_letter(s@[j as int]),
        decreases n - j,
    {
        let b = s[j];
        if !(97 <= b && b <= 122) {
            break;
        }
        proof {
            assert(letters_end(s@, j as int) == letters_end(s@, j as int + 1));
        }
        j += 1;
    }
    proof {
        assert(letters_end(s@, j as int) == j);
    }
    j
}

/// Parse a decimal number at `off`.
fn p_num(s: &Vec<u8>, off: usize) -> (r: Option<(u64, usize)>)
    requires
        off <= s@.len(),
    ensures
        match r {
            Some(p) => parse_num(s@, off as int) == Some((p.0, p.1 as int)) && off < p.1
                <= s@.len(),
            None => parse_num(s@, off as int) is None,
        },
{
    proof {
        lemma_digits_end_props(s@, off as int);
    }
    let e = e_digits_end(s, off);
    if e == off {
        return None;
    }
    if s[off] == 48 && e > off + 1 {
        return None;
    }
    let ghost sv = s@;
    let mut acc: u64 = 0;
    let mut j = off;
    while j < e
        invariant
            off <= j <= e <= sv.len(),
            sv == s@,
            e == digits_end(sv, off as int),
            forall|i: int| off <= i < e ==> is_digit(sv[i]),
            acc == num_val_range(sv, off as int, j as int),
        decreases e - j,
    {
        let d: u64 = (s[j] - 48) as u64;
        let acc10 = match acc.checked_mul(10) {
            Some(a) => a,
            None => {
                proof {
                    lemma_num_val_nonneg(sv, off as int, j as int);
                    assert(num_val_range(sv, off as int, j as int + 1) > u64::MAX);
                    lemma_num_val_mono(sv, off as int, j as int + 1, e as int);
                }
                return None;
            },
        };
        let acc2 = match acc10.checked_add(d) {
            Some(a) => a,
            None => {
                proof {
                    assert(num_val_range(sv, off as int, j as int + 1) > u64::MAX);
                    lemma_num_val_mono(sv, off as int, j as int + 1, e as int);
                }
                return None;
            },
        };
        acc = acc2;
        j += 1;
    }
    Some((acc, e))
}

/// Parse one space and a decimal number.
fn p_sp_num(s: &Vec<u8>, off: usize) -> (r: Option<(u64, usize)>)
    requires
        off <= s@.len(),
    ensures
        match r {
            Some(p) => parse_sp_num(s@, off as int) == Some((p.0, p.1 as int)) && off < p.1
                <= s@.len(),
            None => parse_sp_num(s@, off as int) is None,
        },
{
    if off < s.len() && s[off] == 32 {
        p_num(s, off + 1)
    } else {
        None
    }
}

/// Parse a resize mode after the `resize` tag.
fn p_resize_mode(s: &Vec<u8>, off: usize) -> (r: Option<(ImageFilter, usize)>)
    requires
        off <= s@.len(),
    ensures
        match r {
            Some(p) => parse_resize_mode(s@, off as int) == Some((p.0, p.1 as int)) && off < p.1
                <= s@.len(),
            None => parse_resize_mode(s@, off as int) is None,
        },
{
    if !(off < s.len() && s[off] == 32) {
        return None;
    }
    let a = off + 1;
    let e2 = e_letters_end(s, a);
    let tl = e2 - a;
    if tl == 6 && s[a] == 112 && s[a + 1] == 105 && s[a + 2] == 120 && s[a + 3] == 101 && s[a + 4]
        == 108 && s[a + 5] == 115 {
        match p_sp_num(s, e2) {
            Some((w, e3)) => if w <= 0xffff_ffff {
                match p_sp_num(s, e3) {
                    Some((h, e4)) => if h <= 0xffff_ffff {
                        Some(
                            (ImageFilter::Resize { size: ResizeOption::Pixels(w as u32, h as u32) }, e4),
                        )
                    } else {
                        None
                    },
                    None => None,
                }
            } else {
                None
            },
            None => None,
        }
    } else if tl == 7 && s[a] == 112 && s[a + 1] == 101 && s[a + 2] == 114 && s[a + 3] == 99 && s[a
        + 4] == 101 && s[a + 5] == 110 && s[a + 6] == 116 {
        match p_sp_num(s, e2) {
            Some((fx, e3)) => if fx <= 1000 {
                match p_sp_num(s, e3) {
                    Some((fy, e4)) => if fy <= 1000 {
                        Some(
                            (
                                ImageFilter::Resize {
                                    size: ResizeOption::Percentage(fx as u32, fy as u32),
                                },
                                e4,
                            ),
                        )
                    } else {
                        None
                    },
                    None => None,
                }
            } else {
                None
            },
            None => None,
        }
    } else {
        None
    }
}

/// Parse a filter at `off`.
fn p_filter(s: &Vec<u8>, off: usize) -> (r: Option<(ImageFilter, usize)>)
    requires
        off <= s@.len(),
    ensures
        match r {
            Some(p) => parse_filter(s@, off as int) == Some((p.0, p.1 as int)) && off < p.1
                <= s@.len() && p.0.valid(),
            None => parse_filter(s@, off as int) is None,
        },
{
    let e = e_letters_end(s, off);
    let tl = e - off;
    if tl == 4 && s[off] == 106 && s[off + 1] == 112 && s[off + 2] == 101 && s[off + 3] == 103 {
        match p_sp_num(s, e) {
            Some((v, e2)) => if 1 <= v && v <= 100 {
                Some((ImageFilter::JpegCompression { quality: v as u8 }, e2))
            } else {
                None
            },
            None => None,
        }
    } else if tl == 10 && s[off] == 98 && s[off + 1] == 114 && s[off + 2] == 105 && s[off + 3]
        == 103 && s[off + 4] == 104 && s[off + 5] == 116 && s[off + 6] == 110 && s[off + 7] == 101
        && s[off + 8] == 115 && s[off + 9] == 115 {
        match p_sp_num(s, e) {
            Some((v, e2)) => if v <= 200 {
                Some((ImageFilter::Brightness { percentage: v as u8 }, e2))
            } else {
                None
            },
            None => None,
        }
    } else if tl == 7 && s[off] == 115 && s[off + 1] == 104 && s[off + 2] == 97 && s[off + 3] == 114
        && s[off + 4] == 112 && s[off + 5] == 101 && s[off + 6] == 110 {
        match p_sp_num(s, e) {
            Some((v, e2)) => if v <= 200 {
                Some((ImageFilter::Sharpen { strength: v as u8 }, e2))
            } else {
                None
            },
            None => None,
        }
    } else if tl == 7 && s[off] == 98 && s[off + 1] == 111 && s[off + 2] == 120 && s[off + 3] == 98
        && s[off + 4] == 108 && s[off + 5] == 117 && s[off + 6] == 114 {
        Some((ImageFilter::BoxBlur, e))
    } else if tl == 12 && s[off] == 103 && s[off + 1] == 97 && s[off + 2] == 117 && s[off + 3]
        == 115 && s[off + 4] == 115 && s[off + 5] == 105 && s[off + 6] == 97 && s[off + 7] == 110
        && s[off + 8] == 98 && s[off + 9] == 108 && s[off + 10] == 117 && s[off + 11] == 114 {
        match p_sp_num(s, e) {
            Some((v, e2)) => if v <= 500 {
                Some((ImageFilter::GaussianBlur { sigma_centi: v as u32 }, e2))
            } else {
                None
            },
            None => None,
        }
    } else if tl == 8 && s[off] == 115 && s[off + 1] == 97 && s[off + 2] == 116 && s[off + 3] == 117
        && s[off + 4] == 114 && s[off + 5] == 97 && s[off + 6] == 116 && s[off + 7] == 101 {
        match p_sp_num(s, e) {
            Some((v, e2)) => if v <= 400 {
                Some((ImageFilter::Saturate { percentage: v as u16 }, e2))
            } else {
                None
            },
            None => None,
        }
    } else if tl == 5 && s[off] == 110 && s[off + 1] == 111 && s[off + 2] == 105 && s[off + 3]
        == 115 && s[off + 4] == 101 {
        match p_sp_num(s, e) {
            Some((st, e2)) => if st <= 100 {
                match p_sp_num(s, e2) {
                    Some((sd, e3)) => Some(
                        (ImageFilter::Noise { strength: st as u8, seed: Some(sd) }, e3),
                    ),
                    None => Some((ImageFilter::Noise { strength: st as u8, seed: None }, e2)),
                }
            } else {
                None
            },
            None => None,
        }
    } else if tl == 6 && s[off] == 114 && s[off + 1] == 101 && s[off + 2] == 115 && s[off + 3]
        == 105 && s[off + 4] == 122 && s[off + 5] == 101 {
        p_resize_mode(s, e)
    } else if tl == 6 && s[off] == 105 && s[off + 1] == 110 && s[off + 2] == 118 && s[off + 3]
        == 101 && s[off + 4] == 114 && s[off + 5] == 116 {
        Some((ImageFilter::Invert, e))
    } else {
        None
    }
}

/// Parse one command record at `off`.
fn p_cmd(s: &Vec<u8>, off: usize) -> (r: Option<(FilterCommand, usize)>)
    requires
        off <= s@.len(),
    ensures
        match r {
            Some(p) => parse_cmd(s@, off as int) == Some((p.0, p.1 as int)) && off < p.1
                <= s@.len() && p.0.valid(),
            None => parse_cmd(s@, off as int) is None,
        },
{
    if off < s.len() {
        let b = s[off];
        if b == 43 || b == 45 {
            match p_filter(s, off + 1) {
                Some((f, e)) => {
                    if e < s.len() {
                        if s[e] == 59 {
                            Some((FilterCommand { enabled: b == 43, filter: f }, e + 1))
                        } else {
                            None
                        }
                    } else {
                        None
                    }
                },
                None => None,
            }
        } else {
            None
        }
    } else {
        None
    }
}

/// Parse a whole serialized queue; `None` on any malformed byte.
pub fn parse_cmds_exec(s: &Vec<u8>) -> (r: Option<Vec<FilterCommand>>)
    ensures
        match r {
            Some(v) => parse_cmds(s@) == Some(v@) && valid_cmds(v@),
            None => parse_cmds(s@) is None,
        },
{
    let n = s.len();
    let mut out: Vec<FilterCommand> = Vec::new();
    let mut off: usize = 0;
    while off < n
        invariant
            off <= n,
            n == s@.len(),
            valid_cmds(out@),
            match parse_cmds_from(s@, off as int) {
                Some(rest) => parse_cmds(s@) == Some(out@ + rest),
                None => parse_cmds(s@) is None,
            },
        decreases n - off,
    {
        match p_cmd(s, off) {
            Some((c, e)) => {
                proof {
                    match parse_cmds_from(s@, e as int) {
                        Some(rest2) => {
                            assert(parse_cmds_from(s@, off as int) == Some(seq![c] + rest2));
                            assert(out@.push(c) + rest2 =~= out@ + (seq![c] + rest2));
                        },
                        None => {
                            assert(parse_cmds_from(s@, off as int) is None);
                        },
                    }
                }
                out.push(c);
                off = e;
            },
            None => {
                proof {
                    assert(parse_cmds_from(s@, off as int) is None);
                }
                return None;
            },
        }
    }
    proof {
        assert(parse_cmds_from(s@, n as int) == Some(Seq::<FilterCommand>::empty()));
        assert(out@ + Seq::<FilterCommand>::empty() =~= out@);
    }
    Some(out)
}

} // verus!

verus! {

// ---------------------------------------------------------------------
// Round trip: parsing a serialized queue yields the original commands
// ---------------------------------------------------------------------
/// A subrange equality gives its bytes pointwise.
proof fn lemma_bytes_at(s: Seq<u8>, off: int, t: Seq<u8>)
    requires
        0 <= off,
        off + t.len() <= s.len(),
        s.subrange(off, off + t.len() as int) == t,
    ensures
        forall|k: int| 0 <= k < t.len() ==> s[off + k] == #[trigger] t[k],
{
    assert forall|k: int| 0 <= k < t.len() implies s[off + k] == #[trigger] t[k] by {
        assert(s.subrange(off, off + t.len() as int)[k] == s[off + k]);
    }
}

/// A subrange of a known subrange is the matching subrange of the known
/// bytes.
proof fn lemma_subrange_of_subrange(s: Seq<u8>, off: int, t: Seq<u8>, a: int, b: int)
    requires
        0 <= off,
        off + t.len() <= s.len(),
        s.subrange(off, off + t.len() as int) == t,
        0 <= a <= b <= t.len(),
    ensures
        s.subrange(off + a, off + b) == t.subrange(a, b),
{
    lemma_bytes_at(s, off, t);
    assert(s.subrange(off + a, off + b) =~= t.subrange(a, b));
}

/// A run of digits bounded by a non-digit (or the end) pins
/// `digits_end`.
proof fn lemma_digits_end_of_run(s: Seq<u8>, a: int, b: int)
    requires
        0 <= a <= b <= s.len(),
        forall|i: int| a <= i < b ==> is_digit(s[i]),
        b == s.len() || !is_digit(s[b]),
    ensures
        digits_end(s, a) == b,
    decreases b - a,
{
    if a < b {
        lemma_digits_end_of_run(s, a + 1, b);
    }
}

/// A run of letters bounded by a non-letter (or the end) pins
/// `letters_end`.
proof fn lemma_letters_end_of_run(s: Seq<u8>, a: int, b: int)
    requires
        0 <= a <= b <= s.len(),
        forall|i: int| a <= i < b ==> is_letter(s[i]),
        b == s.len() || !is_letter(s[b]),
    ensures
        letters_end(s, a) == b,
    decreases b - a,
{
    if a < b {
        lemma_letters_end_of_run(s, a + 1, b);
    }
}

/// The decimal digits of a number: at least one, all digits, and no
/// leading zero unless the number is zero.
proof fn lemma_dec_digits_props(n: nat)
    ensures
        dec_digits(n).len() >= 1,
        forall|i: int| 0 <= i < dec_digits(n).len() ==> is_digit(#[trigger] dec_digits(n)[i]),
        n >= 1 ==> dec_digits(n)[0] != 48,
        n < 10 ==> dec_digits(n).len() == 1,
    decreases n,
{
    if n >= 10 {
        lemma_dec_digits_props(n / 10);
        vstd::arithmetic::div_mod::lemma_mod_bound(n as int, 10);
        assert(n / 10 >= 1) by (nonlinear_arith)
            requires
                n >= 10,
        ;
        assert(dec_digits(n) == dec_digits(n / 10).push((48 + n % 10) as u8));
        assert forall|i: int| 0 <= i < dec_digits(n).len() implies is_digit(
            #[trigger] dec_digits(n)[i],
        ) by {
            if i < dec_digits(n / 10).len() {
                assert(dec_digits(n)[i] == dec_digits(n / 10)[i]);
            }
        }
    }
}

/// The digits of `n` read back as the value `n`.
proof fn lemma_val_of_dec_digits(s: Seq<u8>, off: int, n: nat)
    requires
        0 <= off,
        off + dec_digits(n).len() <= s.len(),
        s.subrange(off, off + dec_digits(n).len() as int) == dec_digits(n),
    ensures
        num_val_range(s, off, off + dec_digits(n).len()) == n,
    decreases n,
{
    lemma_bytes_at(s, off, dec_digits(n));
    let d = dec_digits(n);
    let e = off + d.len();
    if n < 10 {
        assert(s[off] == d[0]);
        assert(num_val_range(s, off, e) == num_val_range(s, off, off) * 10 + (s[off] - 48));
    } else {
        let dp = dec_digits(n / 10);
        assert(d == dp.push((48 + n % 10) as u8));
        assert(s.subrange(off, off + dp.len() as int) =~= dp) by {
            lemma_bytes_at(s, off, d);
            assert forall|k: int| 0 <= k < dp.len() implies s.subrange(
                off,
                off + dp.len() as int,
            )[k] == dp[k] by {
                assert(s[off + k] == d[k]);
                assert(d[k] == dp[k]);
            }
        }
        lemma_val_of_dec_digits(s, off, n / 10);
        assert(s[e - 1] == d[d.len() - 1]);
        assert(d[d.len() - 1] == (48 + n % 10) as u8);
        vstd::arithmetic::div_mod::lemma_mod_bound(n as int, 10);
        assert(num_val_range(s, off, e) == num_val_range(s, off, e - 1) * 10 + (s[e - 1] - 48));
        lemma_fundamental_div_mod(n as int, 10);
    }
}

/// A serialized number bounded by a non-digit parses back to itself.
proof fn lemma_parse_num_at(s: Seq<u8>, off: int, n: u64)
    requires
        0 <= off,
        off + dec_digits(n as nat).len() <= s.len(),
        s.subrange(off, off + dec_digits(n as nat).len() as int) == dec_digits(n as nat),
        off + dec_digits(n as nat).len() == s.len() || !is_digit(
            s[off + dec_digits(n as nat).len()],
        ),
    ensures
        parse_num(s, off) == Some((n, off + dec_digits(n as nat).len() as int)),
{
    let d = dec_digits(n as nat);
    let e = off + d.len();
    lemma_dec_digits_props(n as nat);
    lemma_bytes_at(s, off, d);
    assert forall|i: int| off <= i < e implies is_digit(s[i]) by {
        assert(s[off + (i - off)] == d[i - off]);
    }
    lemma_digits_end_of_run(s, off, e);
    lemma_val_of_dec_digits(s, off, n as nat);
    assert(s[off] == d[0]);
    if n == 0 {
        assert(d.len() == 1);
    } else {
        assert(d[0] != 48);
    }
}

/// A space and a serialized number parse back to the number.
proof fn lemma_parse_sp_num_at(s: Seq<u8>, off: int, n: u64)
    requires
        0 <= off < s.len(),
        s[off] == 32,
        off + 1 + dec_digits(n as nat).len() <= s.len(),
        s.subrange(off + 1, off + 1 + dec_digits(n as nat).len() as int) == dec_digits(n as nat),
        off + 1 + dec_digits(n as nat).len() == s.len() || !is_digit(
            s[off + 1 + dec_digits(n as nat).len()],
        ),
    ensures
        parse_sp_num(s, off) == Some((n, off + 1 + dec_digits(n as nat).len() as int)),
{
    lemma_parse_num_at(s, off + 1, n);
}

} // verus!




verus! {

/// A space and a serialized number embedded in known bytes parse back.
proof fn lemma_sp_num_in_filter(s: Seq<u8>, off: int, t: Seq<u8>, a: int, n: u64)
    requires
        0 <= off,
        off + t.len() <= s.len(),
        s.subrange(off, off + t.len() as int) == t,
        0 <= a,
        a + 1 + dec_digits(n as nat).len() <= t.len(),
        t.subrange(a, a + 1 + dec_digits(n as nat).len() as int) == seq![32u8] + dec_digits(
            n as nat,
        ),
        off + a + 1 + dec_digits(n as nat).len() == s.len() || !is_digit(
            s[off + a + 1 + dec_digits(n as nat).len()],
        ),
    ensures
        parse_sp_num(s, off + a) == Some((n, off + a + 1 + dec_digits(n as nat).len() as int)),
{
    let d = dec_digits(n as nat);
    lemma_dec_digits_props(n as nat);
    lemma_subrange_of_subrange(s, off, t, a, a + 1 + d.len());
    let sub = seq![32u8] + d;
    lemma_bytes_at(s, off + a, sub);
    assert(sub[0] == 32);
    assert(s[off + a + 0] == sub[0]);
    assert(s[off + a] == 32);
    assert(s.subrange(off + a + 1, off + a + 1 + d.len() as int) =~= d) by {
        assert forall|k: int|
            0 <= k < d.len() implies s.subrange(off + a + 1, off + a + 1 + d.len() as int)[k] == d[k] by {
            assert(s[off + a + (1 + k)] == sub[1 + k]);
            assert(sub[1 + k] == d[k]);
            assert(off + a + (1 + k) == off + a + 1 + k);
        }
    }
    lemma_parse_sp_num_at(s, off + a, n);
}

} // verus!

verus! {

// Round-trip proofs for each filter kind: given that the serialized
// bytes of the filter stand at `off` with a `;` right after, the parser
// reads back exactly that filter. Each proof walks the tag's bytes, pins
// the letter run, and hands each embedded number to
// `lemma_sp_num_in_filter`.
#[verifier::spinoff_prover]
#[verifier::rlimit(100)]
proof fn lemma_pf_jpeg(s: Seq<u8>, off: int, f: ImageFilter)
    requires
        f is JpegCompression,
        f.valid(),
        0 <= off,
        off + ser_filter(f).len() < s.len(),
        s.subrange(off, off + ser_filter(f).len() as int) == ser_filter(f),
        s[off + ser_filter(f).len()] == 59,
    ensures
        parse_filter(s, off) == Some((f, off + ser_filter(f).len() as int)),
{
    let t = ser_filter(f);
    lemma_bytes_at(s, off, t);
    let p = f->JpegCompression_quality;
    let d = dec_digits(p as nat);
    let x = tag_jpeg() + (seq![32u8] + d);
    assert(t == x);
    assert(x[0] == 106);
    assert(s[off] == t[0]);
    assert(s[off] == 106);
    assert(x[1] == 112);
    assert(s[off + 1] == t[1]);
    assert(s[off + 1] == 112);
    assert(x[2] == 101);
    assert(s[off + 2] == t[2]);
    assert(s[off + 2] == 101);
    assert(x[3] == 103);
    assert(s[off + 3] == t[3]);
    assert(s[off + 3] == 103);
    assert(x[4] == 32);
    assert(s[off + 4] == t[4]);
    assert(s[off + 4] == 32);
    assert(!is_letter(s[off + 4]));
    assert(letters_end(s, off + 4) == off + 4);
    assert(is_letter(s[off + 3]));
    assert(letters_end(s, off + 3) == off + 4);
    assert(is_letter(s[off + 2]));
    assert(letters_end(s, off + 2) == off + 4);
    assert(is_letter(s[off + 1]));
    assert(letters_end(s, off + 1) == off + 4);
    assert(is_letter(s[off]));
    assert(letters_end(s, off) == off + 4);
    assert(t.subrange(4, t.len() as int) =~= seq![32u8] + d);
    lemma_sp_num_in_filter(s, off, t, 4, p as u64);
}

#[verifier::spinoff_prover]
#[verifier::rlimit(100)]
proof fn lemma_pf_brightness(s: Seq<u8>, off: int, f: ImageFilter)
    requires
        f is Brightness,
        f.valid(),
        0 <= off,
        off + ser_filter(f).len() < s.len(),
        s.subrange(off, off + ser_filter(f).len() as int) == ser_filter(f),
        s[off + ser_filter(f).len()] == 59,
    ensures
        parse_filter(s, off) == Some((f, off + ser_filter(f).len() as int)),
{
    let t = ser_filter(f);
    lemma_bytes_at(s, off, t);
    let p = f->Brightness_percentage;
    let d = dec_digits(p as nat);
    let x = tag_brightness() + (seq![32u8] + d);
    assert(t == x);
    assert(x[0] == 98);
    assert(s[off] == t[0]);
    assert(s[off] == 98);
    assert(x[1] == 114);
    assert(s[off + 1] == t[1]);
    assert(s[off + 1] == 114);
    assert(x[2] == 105);
    assert(s[off + 2] == t[2]);
    assert(s[off + 2] == 105);
    assert(x[3] == 103);
    assert(s[off + 3] == t[3]);
    assert(s[off + 3] == 103);
    assert(x[4] == 104);
    assert(s[off + 4] == t[4]);
    assert(s[off + 4] == 104);
    assert(x[5] == 116);
    assert(s[off + 5] == t[5]);
    assert(s[off + 5] == 116);
    assert(x[6] == 110);
    assert(s[off + 6] == t[6]);
    assert(s[off + 6] == 110);
    assert(x[7] == 101);
    assert(s[off + 7] == t[7]);
    assert(s[off + 7] == 101);
    assert(x[8] == 115);
    assert(s[off + 8] == t[8]);
    assert(s[off + 8] == 115);
    assert(x[9] == 115);
    assert(s[off + 9] == t[9]);
    assert(s[off + 9] == 115);
    assert(x[10] == 32);
    assert(s[off + 10] == t[10]);
    assert(s[off + 10] == 32);
    assert(!is_letter(s[off + 10]));
    assert(letters_end(s, off + 10) == off + 10);
    assert(is_letter(s[off + 9]));
    assert(letters_end(s, off + 9) == off + 10);
    assert(is_letter(s[off + 8]));
    assert(letters_end(s, off + 8) == off + 10);
    assert(is_letter(s[off + 7]));
    assert(letters_end(s, off + 7) == off + 10);
    assert(is_letter(s[off + 6]));
    assert(letters_end(s, off + 6) == off + 10);
    assert(is_letter(s[off + 5]));
    assert(letters_end(s, off + 5) == off + 10);
    assert(is_letter(s[off + 4]));
    assert(letters_end(s, off + 4) == off + 10);
    assert(is_letter(s[off + 3]));
    assert(letters_end(s, off + 3) == off + 10);
    assert(is_letter(s[off + 2]));
    assert(letters_end(s, off + 2) == off + 10);
    assert(is_letter(s[off + 1]));
    assert(letters_end(s, off + 1) == off + 10);
    assert(is_letter(s[off]));
    assert(letters_end(s, off) == off + 10);
    assert(t.subrange(10, t.len() as int) =~= seq![32u8] + d);
    lemma_sp_num_in_filter(s, off, t, 10, p as u64);
}

#[verifier::spinoff_prover]
#[verifier::rlimit(100)]
proof fn lemma_pf_sharpen(s: Seq<u8>, off: int, f: ImageFilter)
    requires
        f is Sharpen,
        f.valid(),
        0 <= off,
        off + ser_filter(f).len() < s.len(),
        s.subrange(off, off + ser_filter(f).len() as int) == ser_filter(f),
        s[off + ser_filter(f).len()] == 59,
    ensures
        parse_filter(s, off) == Some((f, off + ser_filter(f).len() as int)),
{
    let t = ser_filter(f);
    lemma_bytes_at(s, off, t);
    let p = f->Sharpen_strength;
    let d = dec_digits(p as nat);
    let x = tag_sharpen() + (seq![32u8] + d);
    assert(t == x);
    assert(x[0] == 115);
    assert(s[off] == t[0]);
    assert(s[off] == 115);
    assert(x[1] == 104);
    assert(s[off + 1] == t[1]);
    assert(s[off + 1] == 104);
    assert(x[2] == 97);
    assert(s[off + 2] == t[2]);
    assert(s[off + 2] == 97);
    assert(x[3] == 114);
    assert(s[off + 3] == t[3]);
    assert(s[off + 3] == 114);
    assert(x[4] == 112);
    assert(s[off + 4] == t[4]);
    assert(s[off + 4] == 112);
    assert(x[5] == 101);
    assert(s[off + 5] == t[5]);
    assert(s[off + 5] == 101);
    assert(x[6] == 110);
    assert(s[off + 6] == t[6]);
    assert(s[off + 6] == 110);
    assert(x[7] == 32);
    assert(s[off + 7] == t[7]);
    assert(s[off + 7] == 32);
    assert(!is_letter(s[off + 7]));
    assert(letters_end(s, off + 7) == off + 7);
    assert(is_letter(s[off + 6]));
    assert(letters_end(s, off + 6) == off + 7);
    assert(is_letter(s[off + 5]));
    assert(letters_end(s, off + 5) == off + 7);
    assert(is_letter(s[off + 4]));
    assert(letters_end(s, off + 4) == off + 7);
    assert(is_letter(s[off + 3]));
    assert(letters_end(s, off + 3) == off + 7);
    assert(is_letter(s[off + 2]));
    assert(letters_end(s, off + 2) == off + 7);
    assert(is_letter(s[off + 1]));
    assert(letters_end(s, off + 1) == off + 7);
    assert(is_letter(s[off]));
    assert(letters_end(s, off) == off + 7);
    assert(t.subrange(7, t.len() as int) =~= seq![32u8] + d);
    lemma_sp_num_in_filter(s, off, t, 7, p as u64);
}

#[verifier::spinoff_prover]
#[verifier::rlimit(100)]
proof fn lemma_pf_gaussianblur(s: Seq<u8>, off: int, f: ImageFilter)
    requires
        f is GaussianBlur,
        f.valid(),
        0 <= off,
        off + ser_filter(f).len() < s.len(),
        s.subrange(off, off + ser_filter(f).len() as int) == ser_filter(f),
        s[off + ser_filter(f).len()] == 59,
    ensures
        parse_filter(s, off) == Some((f, off + ser_filter(f).len() as int)),
{
    let t = ser_filter(f);
    lemma_bytes_at(s, off, t);
    let p = f->GaussianBlur_sigma_centi;
    let d = dec_digits(p as nat);
    let x = tag_gaussianblur() + (seq![32u8] + d);
    assert(t == x);
    assert(x[0] == 103);
    assert(s[off] == t[0]);
    assert(s[off] == 103);
    assert(x[1] == 97);
    assert(s[off + 1] == t[1]);
    assert(s[off + 1] == 97);
    assert(x[2] == 117);
    assert(s[off + 2] == t[2]);
    assert(s[off + 2] == 117);
    assert(x[3] == 115);
    assert(s[off + 3] == t[3]);
    assert(s[off + 3] == 115);
    assert(x[4] == 115);
    assert(s[off + 4] == t[4]);
    assert(s[off + 4] == 115);
    assert(x[5] == 105);
    assert(s[off + 5] == t[5]);
    assert(s[off + 5] == 105);
    assert(x[6] == 97);
    assert(s[off + 6] == t[6]);
    assert(s[off + 6] == 97);
    assert(x[7] == 110);
    assert(s[off + 7] == t[7]);
    assert(s[off + 7] == 110);
    assert(x[8] == 98);
    assert(s[off + 8] == t[8]);
    assert(s[off + 8] == 98);
    assert(x[9] == 108);
    assert(s[off + 9] == t[9]);
    assert(s[off + 9] == 108);
    assert(x[10] == 117);
    assert(s[off + 10] == t[10]);
    assert(s[off + 10] == 117);
    assert(x[11] == 114);
    assert(s[off + 11] == t[11]);
    assert(s[off + 11] == 114);
    assert(x[12] == 32);
    assert(s[off + 12] == t[12]);
    assert(s[off + 12] == 32);
    assert(!is_letter(s[off + 12]));
    assert(letters_end(s, off + 12) == off + 12);
    assert(is_letter(s[off + 11]));
    assert(letters_end(s, off + 11) == off + 12);
    assert(is_letter(s[off + 10]));
    assert(letters_end(s, off + 10) == off + 12);
    assert(is_letter(s[off + 9]));
    assert(letters_end(s, off + 9) == off + 12);
    assert(is_letter(s[off + 8]));
    assert(letters_end(s, off + 8) == off + 12);
    assert(is_letter(s[off + 7]));
    assert(letters_end(s, off + 7) == off + 12);
    assert(is_letter(s[off + 6]));
    assert(letters_end(s, off + 6) == off + 12);
    assert(is_letter(s[off + 5]));
    assert(letters_end(s, off + 5) == off + 12);
    assert(is_letter(s[off + 4]));
    assert(letters_end(s, off + 4) == off + 12);
    assert(is_letter(s[off + 3]));
    assert(letters_end(s, off + 3) == off + 12);
    assert(is_letter(s[off + 2]));
    assert(letters_end(s, off + 2) == off + 12);
    assert(is_letter(s[off + 1]));
    assert(letters_end(s, off + 1) == off + 12);
    assert(is_letter(s[off]));
    assert(letters_end(s, off) == off + 12);
    assert(t.subrange(12, t.len() as int) =~= seq![32u8] + d);
    lemma_sp_num_in_filter(s, off, t, 12, p as u64);
}

#[verifier::spinoff_prover]
#[verifier::rlimit(100)]
proof fn lemma_pf_saturate(s: Seq<u8>, off: int, f: ImageFilter)
    requires
        f is Saturate,
        f.valid(),
        0 <= off,
        off + ser_filter(f).len() < s.len(),
        s.subrange(off, off + ser_filter(f).len() as int) == ser_filter(f),
        s[off + ser_filter(f).len()] == 59,
    ensures
        parse_filter(s, off) == Some((f, off + ser_filter(f).len() as int)),
{
    let t = ser_filter(f);
    lemma_bytes_at(s, off, t);
    let p = f->Saturate_percentage;
    let d = dec_digits(p as nat);
    let x = tag_saturate() + (seq![32u8] + d);
    assert(t == x);
    assert(x[0] == 115);
    assert(s[off] == t[0]);
    assert(s[off] == 115);
    assert(x[1] == 97);
    assert(s[off + 1] == t[1]);
    assert(s[off + 1] == 97);
    assert(x[2] == 116);
    assert(s[off + 2] == t[2]);
    assert(s[off + 2] == 116);
    assert(x[3] == 117);
    assert(s[off + 3] == t[3]);
    assert(s[off + 3] == 117);
    assert(x[4] == 114);
    assert(s[off + 4] == t[4]);
    assert(s[off + 4] == 114);
    assert(x[5] == 97);
    assert(s[off + 5] == t[5]);
    assert(s[off + 5] == 97);
    assert(x[6] == 116);
    assert(s[off + 6] == t[6]);
    assert(s[off + 6] == 116);
    assert(x[7] == 101);
    assert(s[off + 7] == t[7]);
    assert(s[off + 7] == 101);
    assert(x[8] == 32);
    assert(s[off + 8] == t[8]);
    assert(s[off + 8] == 32);
    assert(!is_letter(s[off + 8]));
    assert(letters_end(s, off + 8) == off + 8);
    assert(is_letter(s[off + 7]));
    assert(letters_end(s, off + 7) == off + 8);
    assert(is_letter(s[off + 6]));
    assert(letters_end(s, off + 6) == off + 8);
    assert(is_letter(s[off + 5]));
    assert(letters_end(s, off + 5) == off + 8);
    assert(is_letter(s[off + 4]));
    assert(letters_end(s, off + 4) == off + 8);
    assert(is_letter(s[off + 3]));
    assert(letters_end(s, off + 3) == off + 8);
    assert(is_letter(s[off + 2]));
    assert(letters_end(s, off + 2) == off + 8);
    assert(is_letter(s[off + 1]));
    assert(letters_end(s, off + 1) == off + 8);
    assert(is_letter(s[off]));
    assert(letters_end(s, off) == off + 8);
    assert(t.subrange(8, t.len() as int) =~= seq![32u8] + d);
    lemma_sp_num_in_filter(s, off, t, 8, p as u64);
}

#[verifier::spinoff_prover]
#[verifier::rlimit(100)]
proof fn lemma_pf_boxblur(s: Seq<u8>, off: int, f: ImageFilter)
    requires
        f is BoxBlur,
        f.valid(),
        0 <= off,
        off + ser_filter(f).len() < s.len(),
        s.subrange(off, off + ser_filter(f).len() as int) == ser_filter(f),
        s[off + ser_filter(f).len()] == 59,
    ensures
        parse_filter(s, off) == Some((f, off + ser_filter(f).len() as int)),
{
    let t = ser_filter(f);
    lemma_bytes_at(s, off, t);
    let x = tag_boxblur();
    assert(t == x);
    assert(x[0] == 98);
    assert(s[off] == t[0]);
    assert(s[off] == 98);
    assert(x[1] == 111);
    assert(s[off + 1] == t[1]);
    assert(s[off + 1] == 111);
    assert(x[2] == 120);
    assert(s[off + 2] == t[2]);
    assert(s[off + 2] == 120);
    assert(x[3] == 98);
    assert(s[off + 3] == t[3]);
    assert(s[off + 3] == 98);
    assert(x[4] == 108);
    assert(s[off + 4] == t[4]);
    assert(s[off + 4] == 108);
    assert(x[5] == 117);
    assert(s[off + 5] == t[5]);
    assert(s[off + 5] == 117);
    assert(x[6] == 114);
    assert(s[off + 6] == t[6]);
    assert(s[off + 6] == 114);
    assert(s[off + 7] == 59);
    assert(!is_letter(s[off + 7]));
    assert(letters_end(s, off + 7) == off + 7);
    assert(is_letter(s[off + 6]));
    assert(letters_end(s, off + 6) == off + 7);
    assert(is_letter(s[off + 5]));
    assert(letters_end(s, off + 5) == off + 7);
    assert(is_letter(s[off + 4]));
    assert(letters_end(s, off + 4) == off + 7);
    assert(is_letter(s[off + 3]));
    assert(letters_end(s, off + 3) == off + 7);
    assert(is_letter(s[off + 2]));
    assert(letters_end(s, off + 2) == off + 7);
    assert(is_letter(s[off + 1]));
    assert(letters_end(s, off + 1) == off + 7);
    assert(is_letter(s[off]));
    assert(letters_end(s, off) == off + 7);
}

#[verifier::spinoff_prover]
#[verifier::rlimit(100)]
proof fn lemma_pf_invert(s: Seq<u8>, off: int, f: ImageFilter)
    requires
        f is Invert,
        f.valid(),
        0 <= off,
        off + ser_filter(f).len() < s.len(),
        s.subrange(off, off + ser_filter(f).len() as int) == ser_filter(f),
        s[off + ser_filter(f).len()] == 59,
    ensures
        parse_filter(s, off) == Some((f, off + ser_filter(f).len() as int)),
{
    let t = ser_filter(f);
    lemma_bytes_at(s, off, t);
    let x = tag_invert();
    assert(t == x);
    assert(x[0] == 105);
    assert(s[off] == t[0]);
    assert(s[off] == 105);
    assert(x[1] == 110);
    assert(s[off + 1] == t[1]);
    assert(s[off + 1] == 110);
    assert(x[2] == 118);
    assert(s[off + 2] == t[2]);
    assert(s[off + 2] == 118);
    assert(x[3] == 101);
    assert(s[off + 3] == t[3]);
    assert(s[off + 3] == 101);
    assert(x[4] == 114);
    assert(s[off + 4] == t[4]);
    assert(s[off + 4] == 114);
    assert(x[5] == 116);
    assert(s[off + 5] == t[5]);
    assert(s[off + 5] == 116);
    assert(s[off + 6] == 59);
    assert(!is_letter(s[off + 6]));
    assert(letters_end(s, off + 6) == off + 6);
    assert(is_letter(s[off + 5]));
    assert(letters_end(s, off + 5) == off + 6);
    assert(is_letter(s[off + 4]));
    assert(letters_end(s, off + 4) == off + 6);
    assert(is_letter(s[off + 3]));
    assert(letters_end(s, off + 3) == off + 6);
    assert(is_letter(s[off + 2]));
    assert(letters_end(s, off + 2) == off + 6);
    assert(is_letter(s[off + 1]));
    assert(letters_end(s, off + 1) == off + 6);
    assert(is_letter(s[off]));
    assert(letters_end(s, off) == off + 6);
}

#[verifier::spinoff_prover]
#[verifier::rlimit(100)]
proof fn lemma_pf_noise_plain(s: Seq<u8>, off: int, f: ImageFilter)
    requires
        f matches ImageFilter::Noise { seed: None, .. },
        f.valid(),
        0 <= off,
        off + ser_filter(f).len() < s.len(),
        s.subrange(off, off + ser_filter(f).len() as int) == ser_filter(f),
        s[off + ser_filter(f).len()] == 59,
    ensures
        parse_filter(s, off) == Some((f, off + ser_filter(f).len() as int)),
{
    let t = ser_filter(f);
    lemma_bytes_at(s, off, t);
    let st = f->Noise_strength;
    let d1 = dec_digits(st as nat);
    let x = tag_noise() + (seq![32u8] + d1);
    assert(t == x);
    assert(x[0] == 110);
    assert(s[off] == t[0]);
    assert(s[off] == 110);
    assert(x[1] == 111);
    assert(s[off + 1] == t[1]);
    assert(s[off + 1] == 111);
    assert(x[2] == 105);
    assert(s[off + 2] == t[2]);
    assert(s[off + 2] == 105);
    assert(x[3] == 115);
    assert(s[off + 3] == t[3]);
    assert(s[off + 3] == 115);
    assert(x[4] == 101);
    assert(s[off + 4] == t[4]);
    assert(s[off + 4] == 101);
    assert(x[5] == 32);
    assert(s[off + 5] == t[5]);
    assert(s[off + 5] == 32);
    assert(!is_letter(s[off + 5]));
    assert(letters_end(s, off + 5) == off + 5);
    assert(is_letter(s[off + 4]));
    assert(letters_end(s, off + 4) == off + 5);
    assert(is_letter(s[off + 3]));
    assert(letters_end(s, off + 3) == off + 5);
    assert(is_letter(s[off + 2]));
    assert(letters_end(s, off + 2) == off + 5);
    assert(is_letter(s[off + 1]));
    assert(letters_end(s, off + 1) == off + 5);
    assert(is_letter(s[off]));
    assert(letters_end(s, off) == off + 5);
    assert(t.subrange(5, t.len() as int) =~= seq![32u8] + d1);
    lemma_sp_num_in_filter(s, off, t, 5, st as u64);
    assert(s[off + t.len() as int] == 59);
}

#[verifier::spinoff_prover]
#[verifier::rlimit(100)]
proof fn lemma_pf_noise_seeded(s: Seq<u8>, off: int, f: ImageFilter)
    requires
        f matches ImageFilter::Noise { seed: Some(_), .. },
        f.valid(),
        0 <= off,
        off + ser_filter(f).len() < s.len(),
        s.subrange(off, off + ser_filter(f).len() as int) == ser_filter(f),
        s[off + ser_filter(f).len()] == 59,
    ensures
        parse_filter(s, off) == Some((f, off + ser_filter(f).len() as int)),
{
    let t = ser_filter(f);
    lemma_bytes_at(s, off, t);
    let st = f->Noise_strength;
    let sd = f->Noise_seed->0;
    let d1 = dec_digits(st as nat);
    let d2 = dec_digits(sd as nat);
    let x = tag_noise() + (seq![32u8] + d1) + (seq![32u8] + d2);
    assert(t == x);
    assert(x[0] == 110);
    assert(s[off] == t[0]);
    assert(s[off] == 110);
    assert(x[1] == 111);
    assert(s[off + 1] == t[1]);
    assert(s[off + 1] == 111);
    assert(x[2] == 105);
    assert(s[off + 2] == t[2]);
    assert(s[off + 2] == 105);
    assert(x[3] == 115);
    assert(s[off + 3] == t[3]);
    assert(s[off + 3] == 115);
    assert(x[4] == 101);
    assert(s[off + 4] == t[4]);
    assert(s[off + 4] == 101);
    assert(x[5] == 32);
    assert(s[off + 5] == t[5]);
    assert(s[off + 5] == 32);
    assert(!is_letter(s[off + 5]));
    assert(letters_end(s, off + 5) == off + 5);
    assert(is_letter(s[off + 4]));
    assert(letters_end(s, off + 4) == off + 5);
    assert(is_letter(s[off + 3]));
    assert(letters_end(s, off + 3) == off + 5);
    assert(is_letter(s[off + 2]));
    assert(letters_end(s, off + 2) == off + 5);
    assert(is_letter(s[off + 1]));
    assert(letters_end(s, off + 1) == off + 5);
    assert(is_letter(s[off]));
    assert(letters_end(s, off) == off + 5);
    assert(t.subrange(5, 5 + 1 + d1.len() as int) =~= seq![32u8] + d1);
    assert(x[5 + 1 + d1.len() as int] == 32);
    assert(s[off + 5 + 1 + d1.len() as int] == t[5 + 1 + d1.len() as int]);
    assert(s[off + 5 + 1 + d1.len() as int] == 32);
    lemma_sp_num_in_filter(s, off, t, 5, st as u64);
    assert(t.subrange(5 + 1 + d1.len() as int, t.len() as int) =~= seq![32u8] + d2);
    lemma_sp_num_in_filter(s, off, t, 5 + 1 + d1.len() as int, sd);
}

#[verifier::spinoff_prover]
#[verifier::rlimit(100)]
proof fn lemma_pf_resize_pixels(s: Seq<u8>, off: int, f: ImageFilter)
    requires
        f matches ImageFilter::Resize { size } && size is Pixels,
        f.valid(),
        0 <= off,
        off + ser_filter(f).len() < s.len(),
        s.subrange(off, off + ser_filter(f).len() as int) == ser_filter(f),
        s[off + ser_filter(f).len()] == 59,
    ensures
        parse_filter(s, off) == Some((f, off + ser_filter(f).len() as int)),
{
    let t = ser_filter(f);
    lemma_bytes_at(s, off, t);
    let size = f->Resize_size;
    let a = size->Pixels_0;
    let b = size->Pixels_1;
    let d1 = dec_digits(a as nat);
    let d2 = dec_digits(b as nat);
    let x = tag_resize() + seq![32u8] + tag_pixels() + (seq![32u8] + d1) + (seq![32u8] + d2);
    assert(t == x);
    assert(x[0] == 114);
    assert(s[off] == t[0]);
    assert(s[off] == 114);
    assert(x[1] == 101);
    assert(s[off + 1] == t[1]);
    assert(s[off + 1] == 101);
    assert(x[2] == 115);
    assert(s[off + 2] == t[2]);
    assert(s[off + 2] == 115);
    assert(x[3] == 105);
    assert(s[off + 3] == t[3]);
    assert(s[off + 3] == 105);
    assert(x[4] == 122);
    assert(s[off + 4] == t[4]);
    assert(s[off + 4] == 122);
    assert(x[5] == 101);
    assert(s[off + 5] == t[5]);
    assert(s[off + 5] == 101);
    assert(x[6] == 32);
    assert(s[off + 6] == t[6]);
    assert(s[off + 6] == 32);
    assert(!is_letter(s[off + 6]));
    assert(letters_end(s, off + 6) == off + 6);
    assert(is_letter(s[off + 5]));
    assert(letters_end(s, off + 5) == off + 6);
    assert(is_letter(s[off + 4]));
    assert(letters_end(s, off + 4) == off + 6);
    assert(is_letter(s[off + 3]));
    assert(letters_end(s, off + 3) == off + 6);
    assert(is_letter(s[off + 2]));
    assert(letters_end(s, off + 2) == off + 6);
    assert(is_letter(s[off + 1]));
    assert(letters_end(s, off + 1) == off + 6);
    assert(is_letter(s[off]));
    assert(letters_end(s, off) == off + 6);
    assert(x[7] == 112);
    assert(s[off + 7] == t[7]);
    assert(s[off + 7] == 112);
    assert(x[8] == 105);
    assert(s[off + 8] == t[8]);
    assert(s[off + 8] == 105);
    assert(x[9] == 120);
    assert(s[off + 9] == t[9]);
    assert(s[off + 9] == 120);
    assert(x[10] == 101);
    assert(s[off + 10] == t[10]);
    assert(s[off + 10] == 101);
    assert(x[11] == 108);
    assert(s[off + 11] == t[11]);
    assert(s[off + 11] == 108);
    assert(x[12] == 115);
    assert(s[off + 12] == t[12]);
    assert(s[off + 12] == 115);
    assert(x[13] == 32);
    assert(s[off + 13] == t[13]);
    assert(s[off + 13] == 32);
    assert(!is_letter(s[off + 13]));
    assert(letters_end(s, off + 13) == off + 13);
    assert(is_letter(s[off + 12]));
    assert(letters_end(s, off + 12) == off + 13);
    assert(is_letter(s[off + 11]));
    assert(letters_end(s, off + 11) == off + 13);
    assert(is_letter(s[off + 10]));
    assert(letters_end(s, off + 10) == off + 13);
    assert(is_letter(s[off + 9]));
    assert(letters_end(s, off + 9) == off + 13);
    assert(is_letter(s[off + 8]));
    assert(letters_end(s, off + 8) == off + 13);
    assert(is_letter(s[off + 7]));
    assert(letters_end(s, off + 7) == off + 13);
    assert(t.subrange(13, 13 + 1 + d1.len() as int) =~= seq![32u8] + d1);
    assert(x[13 + 1 + d1.len() as int] == 32);
    assert(s[off + 13 + 1 + d1.len() as int] == t[13 + 1 + d1.len() as int]);
    assert(s[off + 13 + 1 + d1.len() as int] == 32);
    lemma_sp_num_in_filter(s, off, t, 13, a as u64);
    assert(t.subrange(13 + 1 + d1.len() as int, t.len() as int) =~= seq![32u8] + d2);
    lemma_sp_num_in_filter(s, off, t, 13 + 1 + d1.len() as int, b as u64);
}

#[verifier::spinoff_prover]
#[verifier::rlimit(100)]
proof fn lemma_pf_resize_percent(s: Seq<u8>, off: int, f: ImageFilter)
    requires
        f matches ImageFilter::Resize { size } && size is Percentage,
        f.valid(),
        0 <= off,
        off + ser_filter(f).len() < s.len(),
        s.subrange(off, off + ser_filter(f).len() as int) == ser_filter(f),
        s[off + ser_filter(f).len()] == 59,
    ensures
        parse_filter(s, off) == Some((f, off + ser_filter(f).len() as int)),
{
    let t = ser_filter(f);
    lemma_bytes_at(s, off, t);
    let size = f->Resize_size;
    let a = size->Percentage_0;
    let b = size->Percentage_1;
    let d1 = dec_digits(a as nat);
    let d2 = dec_digits(b as nat);
    let x = tag_resize() + seq![32u8] + tag_percent() + (seq![32u8] + d1) + (seq![32u8] + d2);
    assert(t == x);
    assert(x[0] == 114);
    assert(s[off] == t[0]);
    assert(s[off] == 114);
    assert(x[1] == 101);
    assert(s[off + 1] == t[1]);
    assert(s[off + 1] == 101);
    assert(x[2] == 115);
    assert(s[off + 2] == t[2]);
    assert(s[off + 2] == 115);
    assert(x[3] == 105);
    assert(s[off + 3] == t[3]);
    assert(s[off + 3] == 105);
    assert(x[4] == 122);
    assert(s[off + 4] == t[4]);
    assert(s[off + 4] == 122);
    assert(x[5] == 101);
    assert(s[off + 5] == t[5]);
    assert(s[off + 5] == 101);
    assert(x[6] == 32);
    assert(s[off + 6] == t[6]);
    assert(s[off + 6] == 32);
    assert(!is_letter(s[off + 6]));
    assert(letters_end(s, off + 6) == off + 6);
    assert(is_letter(s[off + 5]));
    assert(letters_end(s, off + 5) == off + 6);
    assert(is_letter(s[off + 4]));
    assert(letters_end(s, off + 4) == off + 6);
    assert(is_letter(s[off + 3]));
    assert(letters_end(s, off + 3) == off + 6);
    assert(is_letter(s[off + 2]));
    assert(letters_end(s, off + 2) == off + 6);
    assert(is_letter(s[off + 1]));
    assert(letters_end(s, off + 1) == off + 6);
    assert(is_letter(s[off]));
    assert(letters_end(s, off) == off + 6);
    assert(x[7] == 112);
    assert(s[off + 7] == t[7]);
    assert(s[off + 7] == 112);
    assert(x[8] == 101);
    assert(s[off + 8] == t[8]);
    assert(s[off + 8] == 101);
    assert(x[9] == 114);
    assert(s[off + 9] == t[9]);
    assert(s[off + 9] == 114);
    assert(x[10] == 99);
    assert(s[off + 10] == t[10]);
    assert(s[off + 10] == 99);
    assert(x[11] == 101);
    assert(s[off + 11] == t[11]);
    assert(s[off + 11] == 101);
    assert(x[12] == 110);
    assert(s[off + 12] == t[12]);
    assert(s[off + 12] == 110);
    assert(x[13] == 116);
    assert(s[off + 13] == t[13]);
    assert(s[off + 13] == 116);
    assert(x[14] == 32);
    assert(s[off + 14] == t[14]);
    assert(s[off + 14] == 32);
    assert(!is_letter(s[off + 14]));
    assert(letters_end(s, off + 14) == off + 14);
    assert(is_letter(s[off + 13]));
    assert(letters_end(s, off + 13) == off + 14);
    assert(is_letter(s[off + 12]));
    assert(letters_end(s, off + 12) == off + 14);
    assert(is_letter(s[off + 11]));
    assert(letters_end(s, off + 11) == off + 14);
    assert(is_letter(s[off + 10]));
    assert(letters_end(s, off + 10) == off + 14);
    assert(is_letter(s[off + 9]));
    assert(letters_end(s, off + 9) == off + 14);
    assert(is_letter(s[off + 8]));
    assert(letters_end(s, off + 8) == off + 14);
    assert(is_letter(s[off + 7]));
    assert(letters_end(s, off + 7) == off + 14);
    assert(t.subrange(14, 14 + 1 + d1.len() as int) =~= seq![32u8] + d1);
    assert(x[14 + 1 + d1.len() as int] == 32);
    assert(s[off + 14 + 1 + d1.len() as int] == t[14 + 1 + d1.len() as int]);
    assert(s[off + 14 + 1 + d1.len() as int] == 32);
    lemma_sp_num_in_filter(s, off, t, 14, a as u64);
    assert(t.subrange(14 + 1 + d1.len() as int, t.len() as int) =~= seq![32u8] + d2);
    lemma_sp_num_in_filter(s, off, t, 14 + 1 + d1.len() as int, b as u64);
}

/// A serialized filter followed by a `;` parses back to itself.
proof fn lemma_parse_filter_at(s: Seq<u8>, off: int, f: ImageFilter)
    requires
        f.valid(),
        0 <= off,
        off + ser_filter(f).len() < s.len(),
        s.subrange(off, off + ser_filter(f).len() as int) == ser_filter(f),
        s[off + ser_filter(f).len()] == 59,
    ensures
        parse_filter(s, off) == Some((f, off + ser_filter(f).len() as int)),
{
    match f {
        ImageFilter::JpegCompression { .. } => lemma_pf_jpeg(s, off, f),
        ImageFilter::Brightness { .. } => lemma_pf_brightness(s, off, f),
        ImageFilter::Sharpen { .. } => lemma_pf_sharpen(s, off, f),
        ImageFilter::BoxBlur => lemma_pf_boxblur(s, off, f),
        ImageFilter::GaussianBlur { .. } => lemma_pf_gaussianblur(s, off, f),
        ImageFilter::Saturate { .. } => lemma_pf_saturate(s, off, f),
        ImageFilter::Noise { seed, .. } => match seed {
            None => lemma_pf_noise_plain(s, off, f),
            Some(_) => lemma_pf_noise_seeded(s, off, f),
        },
        ImageFilter::Resize { size } => match size {
            ResizeOption::Pixels(..) => lemma_pf_resize_pixels(s, off, f),
            ResizeOption::Percentage(..) => lemma_pf_resize_percent(s, off, f),
        },
        ImageFilter::Invert => lemma_pf_invert(s, off, f),
    }
}

} // verus!

verus! {

/// A serialized command record parses back to itself.
#[verifier::spinoff_prover]
#[verifier::rlimit(100)]
proof fn lemma_parse_cmd_at(s: Seq<u8>, off: int, c: FilterCommand)
    requires
        c.valid(),
        0 <= off,
        off + ser_cmd(c).len() <= s.len(),
        s.subrange(off, off + ser_cmd(c).len() as int) == ser_cmd(c),
    ensures
        parse_cmd(s, off) == Some((c, off + ser_cmd(c).len() as int)),
        ser_cmd(c).len() >= 2,
{
    let t = ser_cmd(c);
    lemma_bytes_at(s, off, t);
    let x = seq![if c.enabled { 43u8 } else { 45u8 }] + ser_filter(c.filter) + seq![59u8];
    assert(t == x);
    let fl = ser_filter(c.filter).len() as int;
    assert(x[0] == if c.enabled { 43u8 } else { 45u8 });
    assert(s[off] == t[0]);
    assert(t.subrange(1, 1 + fl) =~= ser_filter(c.filter)) by {
        assert forall|k: int| 0 <= k < fl implies t.subrange(1, 1 + fl)[k] == ser_filter(
            c.filter,
        )[k] by {
            assert(x[1 + k] == ser_filter(c.filter)[k]);
        }
    }
    lemma_subrange_of_subrange(s, off, t, 1, 1 + fl);
    assert(x[1 + fl] == 59);
    assert(s[off + (1 + fl)] == t[1 + fl]);
    assert(s[off + 1 + fl] == 59);
    lemma_parse_filter_at(s, off + 1, c.filter);
}

/// The serialized records from `off` to the end parse back to the
/// command list.
proof fn lemma_parse_cmds_from_at(s: Seq<u8>, off: int, cmds: Seq<FilterCommand>)
    requires
        valid_cmds(cmds),
        0 <= off <= s.len(),
        s.subrange(off, s.len() as int) == ser_cmds(cmds),
    ensures
        parse_cmds_from(s, off) == Some(cmds),
    decreases cmds.len(),
{
    if cmds.len() == 0 {
        assert(s.len() - off == 0);
    } else {
        let c0 = cmds[0];
        let rest = cmds.drop_first();
        let t = ser_cmds(cmds);
        assert(t == ser_cmd(c0) + ser_cmds(rest));
        let cl = ser_cmd(c0).len() as int;
        assert(t.len() == s.len() - off);
        assert(t.subrange(0, cl) =~= ser_cmd(c0)) by {
            assert forall|k: int| 0 <= k < cl implies t.subrange(0, cl)[k] == ser_cmd(c0)[k] by {
                assert(t[k] == ser_cmd(c0)[k]);
            }
        }
        lemma_subrange_of_subrange(s, off, t, 0, cl);
        assert(s.subrange(off, off + cl) == ser_cmd(c0));
        assert(c0.valid());
        lemma_parse_cmd_at(s, off, c0);
        assert(t.subrange(cl, t.len() as int) =~= ser_cmds(rest)) by {
            assert forall|k: int| 0 <= k < t.len() - cl implies t.subrange(cl, t.len() as int)[k]
                == ser_cmds(rest)[k] by {
                assert(t[cl + k] == ser_cmds(rest)[k]);
            }
        }
        lemma_subrange_of_subrange(s, off, t, cl, t.len() as int);
        assert(s.subrange(off + cl, s.len() as int) == ser_cmds(rest));
        assert(valid_cmds(rest)) by {
            assert forall|k: int| 0 <= k < rest.len() implies (#[trigger] rest[k]).valid() by {
                assert(rest[k] == cmds[k + 1]);
            }
        }
        lemma_parse_cmds_from_at(s, off + cl, rest);
        assert(seq![c0] + rest =~= cmds);
    }
}

/// Round trip: parsing a serialized queue yields exactly the original
/// commands, order, enabled flags and parameters included.
pub proof fn lemma_round_trip(cmds: Seq<FilterCommand>)
    requires
        valid_cmds(cmds),
    ensures
        parse_cmds(ser_cmds(cmds)) == Some(cmds),
{
    let s = ser_cmds(cmds);
    assert(s.subrange(0, s.len() as int) =~= s);
    lemma_parse_cmds_from_at(s, 0, cmds);
}

} // verus!

verus! {

/// The queue's text form as characters: one character per byte.
pub open spec fn ser_chars(cmds: Seq<FilterCommand>) -> Seq<char> {
    ser_cmds(cmds).map_values(|b: u8| b as char)
}

/// Relies on `String::from_utf8`: ASCII bytes decode to one character
/// per byte.
#[verifier::external_body]
fn ascii_string(v: Vec<u8>) -> (r: String)
    requires
        ascii_bytes(v@),
    ensures
        r@ == v@.map_values(|b: u8| b as char),
{
    String::from_utf8(v).unwrap_or_default()
}

impl CommandQueue {
    /// Serialize the ordered command list, disabled commands and all
    /// parameters included, to its stable text form.
    pub fn serialize(&self) -> (r: String)
        ensures
            r@ == ser_chars(self@),
            vstd::utf8::encode_utf8(r@) == ser_cmds(self@),
    {
        let bytes = serialize_cmds(&self.queue);
        let r = ascii_string(bytes);
        proof {
            assert(vstd::utf8::is_ascii_chars(r@)) by {
                assert forall|i: int| 0 <= i < r@.len() implies '\0' <= #[trigger] r@[i]
                    <= '\u{7f}' by {
                    assert(r@[i] == bytes@[i] as char);
                    assert(bytes@[i] < 128);
                }
            }
            vstd::utf8::is_ascii_chars_encode_utf8(r@);
            assert(vstd::utf8::encode_utf8(r@) =~= bytes@);
        }
        r
    }

    /// Replace the queue with the commands parsed from `s`. A malformed
    /// payload fails with `FormatError` and leaves the queue untouched:
    /// replacement happens only on success.
    pub fn deserialize(&mut self, s: &str) -> (r: Result<(), ErrorKind>)
        ensures
            match r {
                Ok(()) => parse_cmds(s.spec_bytes()) == Some(final(self)@) && final(self).wf(),
                Err(e) => {
                    &&& e == ErrorKind::FormatError
                    &&& final(self)@ == old(self)@
                    &&& parse_cmds(s.spec_bytes()) is None
                },
            },
    {
        let bytes = vstd::slice::slice_to_vec(s.as_bytes());
        match parse_cmds_exec(&bytes) {
            Some(v) => {
                self.queue = v;
                Ok(())
            },
            None => Err(ErrorKind::FormatError),
        }
    }
}

} // verus!
