//! Small shared types: pixel sizes, aspect ratios and scaling presets.

use vstd::prelude::*;

verus! {

use vstd::string::StringExecFns;
use vstd::string::StringSliceAdditionalSpecFns;
use vstd::pervasive::VecAdditionalExecFns;

/// Largest numerator or denominator an aspect ratio may carry.
pub const RATIO_PART_LIMIT: u32 = 1000000;

/// Largest side, in pixels, of any canvas or render target.
pub const SIDE_LIMIT: u64 = 65535;

/// An RGBA color, one byte per channel.
#[derive(Debug, Clone, Copy, PartialEq, Eq, Structural)]
pub struct Rgba8 {
    pub r: u8,
    pub g: u8,
    pub b: u8,
    pub a: u8,
}

/// A pixel size (width and height) of a rectangular area.
#[derive(Debug, Clone, Copy, PartialEq, Eq, Structural)]
pub struct RectSize {
    pub w: usize,
    pub h: usize,
}

impl RectSize {
    pub fn new(w: usize, h: usize) -> (r: Self)
        ensures
            r.w == w,
            r.h == h,
    {
        RectSize { w, h }
    }
}

impl Default for RectSize {
    fn default() -> (r: Self)
        ensures
            r.w == 0,
            r.h == 0,
    {
        RectSize { w: 0, h: 0 }
    }
}

/// Scales a `width` x `height` rectangle, preserving its aspect ratio, so
/// that its larger side becomes `side` (integer arithmetic, rounding down).
pub open spec fn fit_to_square_spec(width: u32, height: u32, side: u32) -> (u32, u32) {
    if height <= width {
        (side, ((side as int * height as int) / width as int) as u32)
    } else {
        (((side as int * width as int) / height as int) as u32, side)
    }
}

/// Aspect-preserving rescale of `width` x `height` so that the larger side
/// equals `side`; the smaller side is rounded down.
pub fn fit_to_square(width: u32, height: u32, side: u32) -> (r: (u32, u32))
    requires
        width > 0,
        height > 0,
    ensures
        r == fit_to_square_spec(width, height, side),
{
    if height <= width {
        assert((side as int * height as int) / width as int <= side as int
            && side as int * height as int <= u64::MAX) by (nonlinear_arith)
            requires
                0 < width <= u32::MAX,
                0 < height <= width,
                side <= u32::MAX,
        ;
        let small = ((side as u64 * height as u64) / width as u64) as u32;
        (side, small)
    } else {
        assert((side as int * width as int) / height as int <= side as int
            && side as int * width as int <= u64::MAX) by (nonlinear_arith)
            requires
                0 < height <= u32::MAX,
                0 < width <= height,
                side <= u32::MAX,
        ;
        let small = ((side as u64 * width as u64) / height as u64) as u32;
        (small, side)
    }
}

/// Relies on rand::random_range: returns a uniformly distributed value inside
/// the given range and panics only when the range is empty (60..200 is not).
#[verifier::external_body]
fn gray_level() -> (r: u8)
    ensures
        60 <= r < 200,
{
    rand::random_range(60..200)
}

/// A pseudo-random placeholder color of mid-range luminance: the red channel
/// is drawn from [60, 200), green is a quarter of red, blue is zero and the
/// color is half transparent, so neighboring placeholder boxes stay visually
/// distinct without decoding any pixels.
pub fn random_gray() -> (c: Rgba8)
    ensures
        60 <= c.r < 200,
        c.g == c.r / 4,
        c.b == 0,
        c.a == 128,
{
    let r = gray_level();
    Rgba8 { r, g: r / 4, b: 0, a: 128 }
}

/// Base name of every exported file.
pub const OUTPUT_NAME: &'static str = "PickPicPack";

/// Relies on chrono::Local::now and chrono's format: formatting the current
/// local time as "%Y-%m-%d_%H-%M-%S" yields a non-empty, purely numeric-and-
/// dash timestamp. The result depends on the clock, so nothing more than the
/// fixed prefix is promised.
#[verifier::external_body]
pub fn file_timestamp() -> (r: String)
    ensures
        r@.len() > "PickPicPack_"@.len(),
        r@.subrange(0, "PickPicPack_"@.len() as int) == "PickPicPack_"@,
{
    let time_stamp = chrono::Local::now().format("%Y-%m-%d_%H-%M-%S");
    format!("{}_{}", OUTPUT_NAME, time_stamp)
}

/// The decimal digit character for a value below ten.
pub open spec fn digit_char(d: int) -> char {
    if d == 0 {
        '0'
    } else if d == 1 {
        '1'
    } else if d == 2 {
        '2'
    } else if d == 3 {
        '3'
    } else if d == 4 {
        '4'
    } else if d == 5 {
        '5'
    } else if d == 6 {
        '6'
    } else if d == 7 {
        '7'
    } else if d == 8 {
        '8'
    } else {
        '9'
    }
}

/// The decimal representation of `n`, most significant digit first.
pub open spec fn dec_str(n: nat) -> Seq<char>
    decreases n,
{
    if n < 10 {
        seq![digit_char(n as int)]
    } else {
        dec_str(n / 10).push(digit_char((n % 10) as int))
    }
}

/// The number of decimal digits of `n`.
pub open spec fn dec_len(n: nat) -> nat
    decreases n,
{
    if n < 10 {
        1
    } else {
        1 + dec_len(n / 10)
    }
}

/// `n` in decimal, left-padded with zeros to at least `width` characters.
pub open spec fn padded_dec(n: nat, width: nat) -> Seq<char> {
    if dec_len(n) < width {
        Seq::new((width - dec_len(n)) as nat, |i: int| '0') + dec_str(n)
    } else {
        dec_str(n)
    }
}

/// The archive entry name for the file called `name` at position `i` (counted
/// from zero) among `total` files: a one-based sequence number, zero-padded to
/// the digit count of `total`, then an underscore, then the file name.
pub open spec fn entry_name_spec(i: nat, total: nat, name: Seq<char>) -> Seq<char> {
    padded_dec(i + 1, dec_len(total)) + seq!['_'] + name
}

/// Appends the digit character for `d` to `s`.
fn push_digit(s: &mut String, d: u64)
    requires
        d < 10,
    ensures
        final(s)@ == old(s)@.push(digit_char(d as int)),
{
    let t: &'static str = match d {
        0 => "0",
        1 => "1",
        2 => "2",
        3 => "3",
        4 => "4",
        5 => "5",
        6 => "6",
        7 => "7",
        8 => "8",
        _ => "9",
    };
    proof {
        reveal_strlit("0");
        reveal_strlit("1");
        reveal_strlit("2");
        reveal_strlit("3");
        reveal_strlit("4");
        reveal_strlit("5");
        reveal_strlit("6");
        reveal_strlit("7");
        reveal_strlit("8");
        reveal_strlit("9");
    }
    s.append(t);
    proof {
        assert(final(s)@ =~= old(s)@.push(digit_char(d as int)));
    }
}

/// `n` written in decimal.
fn dec_string(n: u64) -> (r: String)
    ensures
        r@ == dec_str(n as nat),
    decreases n,
{
    if n < 10 {
        let mut s = String::new();
        push_digit(&mut s, n);
        proof {
            assert(s@ =~= dec_str(n as nat));
        }
        s
    } else {
        let mut s = dec_string(n / 10);
        push_digit(&mut s, n % 10);
        s
    }
}

/// The number of decimal digits of `n`.
fn dec_length(n: u64) -> (r: usize)
    ensures
        r == dec_len(n as nat),
        1 <= r <= 20,
    decreases n,
{
    proof {
        lemma_dec_len_le_20(n as nat);
    }
    if n < 10 {
        1
    } else {
        1 + dec_length(n / 10)
    }
}

/// A number no larger than another has no more decimal digits.
proof fn lemma_dec_len_mono(a: nat, b: nat)
    requires
        a <= b,
    ensures
        dec_len(a) <= dec_len(b),
    decreases b,
{
    if a >= 10 {
        vstd::arithmetic::div_mod::lemma_div_is_ordered(a as int, b as int, 10);
        lemma_dec_len_mono(a / 10, b / 10);
    }
}

/// Any value a u64 can hold has at most twenty decimal digits.
proof fn lemma_dec_len_le_20(n: nat)
    requires
        n <= u64::MAX,
    ensures
        dec_len(n) <= 20,
{
    lemma_dec_len_mono(n, u64::MAX as nat);
    assert(dec_len(u64::MAX as nat) == 20) by {
        reveal_with_fuel(dec_len, 21);
    }
}

/// The names the export archive gives its entries: every source file name,
/// prefixed with its one-based position in ingestion order, zero-padded so
/// that all prefixes share the digit count of the total file count. The
/// prefix keeps archive entries human-sortable in ingestion order.
pub fn archive_entry_names(names: &Vec<String>) -> (r: Vec<String>)
    ensures
        r@.len() == names@.len(),
        forall|i: int|
            0 <= i < names@.len() ==> r@[i]@ == entry_name_spec(
                i as nat,
                names@.len() as nat,
                names@[i]@,
            ),
{
    let total = names.len();
    let width = dec_length(total as u64);
    let mut r: Vec<String> = Vec::new();
    let mut i: usize = 0;
    while i < total
        invariant
            0 <= i <= total,
            total == names@.len(),
            width == dec_len(total as nat),
            r@.len() == i,
            forall|k: int|
                0 <= k < i ==> r@[k]@ == entry_name_spec(k as nat, total as nat, names@[k]@),
        decreases total - i,
    {
        let mut s = String::new();
        let dl = dec_length((i + 1) as u64);
        let mut j = dl;
        while j < width
            invariant
                dl <= j,
                dl == dec_len((i + 1) as nat),
                j <= width || j == dl,
                s@ =~= Seq::new((j - dl) as nat, |t: int| '0'),
            decreases width - j,
        {
            push_digit(&mut s, 0);
            j += 1;
            proof {
                assert(s@ =~= Seq::new((j - dl) as nat, |t: int| '0'));
            }
        }
        proof {
            assert(s@ + dec_str((i + 1) as nat) =~= padded_dec((i + 1) as nat, width as nat));
        }
        let digits = dec_string((i + 1) as u64);
        s.append(digits.as_str());
        proof {
            reveal_strlit("_");
            assert("_"@ =~= seq!['_']);
        }
        s.append("_");
        s.append(names[i].as_str());
        proof {
            assert(s@ =~= entry_name_spec(i as nat, total as nat, names@[i as int]@));
        }
        r.push(s);
        i += 1;
    }
    r
}

/// An ASCII decimal digit byte.
pub open spec fn is_digit_byte(b: u8) -> bool {
    48 <= b && b <= 57
}

/// The numeric value of an ASCII digit byte.
pub open spec fn digit_val(b: u8) -> int {
    b as int - 48
}

/// The text without one leading ASCII `+` or `-`.
pub open spec fn sign_stripped(s: Seq<u8>) -> Seq<u8> {
    if s.len() > 0 && (s[0] == 43 || s[0] == 45) {
        s.drop_first()
    } else {
        s
    }
}

/// State of a left-to-right scan of a plain decimal literal: whether the text
/// so far is still one, whether it holds a digit, how many dots were seen,
/// the integer part's value, and the first two fractional digits (as the
/// two-digit value they spell, later digits truncated).
pub ghost struct DecScan {
    pub ok: bool,
    pub seen_digit: bool,
    pub dots: nat,
    pub ival: int,
    pub fcnt: nat,
    pub frac: int,
}

/// Scans `t` as a plain (unsigned) decimal literal: digits with at most one
/// dot and nothing else.
pub open spec fn dec_scan(t: Seq<u8>) -> DecScan
    decreases t.len(),
{
    if t.len() == 0 {
        DecScan { ok: true, seen_digit: false, dots: 0, ival: 0, fcnt: 0, frac: 0 }
    } else {
        let p = dec_scan(t.drop_last());
        let c = t.last();
        if !p.ok {
            p
        } else if is_digit_byte(c) {
            if p.dots == 0 {
                DecScan {
                    ok: true,
                    seen_digit: true,
                    dots: p.dots,
                    ival: p.ival * 10 + digit_val(c),
                    fcnt: p.fcnt,
                    frac: p.frac,
                }
            } else if p.fcnt == 0 {
                DecScan {
                    ok: true,
                    seen_digit: true,
                    dots: p.dots,
                    ival: p.ival,
                    fcnt: 1,
                    frac: digit_val(c) * 10,
                }
            } else if p.fcnt == 1 {
                DecScan {
                    ok: true,
                    seen_digit: true,
                    dots: p.dots,
                    ival: p.ival,
                    fcnt: 2,
                    frac: p.frac + digit_val(c),
                }
            } else {
                DecScan {
                    ok: true,
                    seen_digit: true,
                    dots: p.dots,
                    ival: p.ival,
                    fcnt: p.fcnt,
                    frac: p.frac,
                }
            }
        } else if c == 46 {
            if p.dots == 0 {
                DecScan {
                    ok: true,
                    seen_digit: p.seen_digit,
                    dots: 1,
                    ival: p.ival,
                    fcnt: p.fcnt,
                    frac: p.frac,
                }
            } else {
                DecScan {
                    ok: false,
                    seen_digit: p.seen_digit,
                    dots: p.dots,
                    ival: p.ival,
                    fcnt: p.fcnt,
                    frac: p.frac,
                }
            }
        } else {
            DecScan {
                ok: false,
                seen_digit: p.seen_digit,
                dots: p.dots,
                ival: p.ival,
                fcnt: p.fcnt,
                frac: p.frac,
            }
        }
    }
}

/// The text is an optional sign followed by digits with at most one dot:
/// the decimal-number form of a ratio entry.
pub open spec fn is_plain_decimal(s: Seq<u8>) -> bool {
    let t = sign_stripped(s);
    t.len() > 0 && dec_scan(t).ok && dec_scan(t).seen_digit
}

/// The decimal's absolute value in hundredths, truncated to two fractional
/// digits.
pub open spec fn dec_hundredths(s: Seq<u8>) -> int {
    let st = dec_scan(sign_stripped(s));
    st.ival * 100 + st.frac
}

/// The exact values of the maximal digit runs of `s`, left to right.
pub open spec fn run_values(s: Seq<u8>) -> Seq<int>
    decreases s.len(),
{
    if s.len() == 0 {
        Seq::empty()
    } else {
        let p = run_values(s.drop_last());
        let c = s.last();
        if !is_digit_byte(c) {
            p
        } else if s.len() >= 2 && is_digit_byte(s[s.len() - 2]) {
            p.update(p.len() - 1, p.last() * 10 + digit_val(c))
        } else {
            p.push(digit_val(c))
        }
    }
}

/// The i-th digit-run value, or zero when there is no such run or its value
/// exceeds 2147483647 — the largest value a ratio part can safely carry on
/// any platform (two such values must still sum within usize for the fuzzy
/// reduction); numbers too long to parse count as absent.
pub open spec fn capped_run(rs: Seq<int>, i: int) -> int {
    if i < rs.len() && rs[i] <= 2147483647 {
        rs[i]
    } else {
        0
    }
}

/// Each part of the pair, capped at 100.
pub open spec fn clamp100(p: (usize, usize)) -> (usize, usize) {
    ((if p.0 > 100 {
        100usize
    } else {
        p.0
    }), (if p.1 > 100 {
        100usize
    } else {
        p.1
    }))
}

/// The pair that fuzzy_fraction::fuzzy_fraction returns for a numerator and
/// denominator; the function is a pure function of its two arguments.
pub uninterp spec fn fuzzy_of(n: int, d: int) -> (usize, usize);

/// Relies on fuzzy_fraction::fuzzy_fraction: a deterministic fuzzy rational
/// approximation of n/d. When both inputs are positive, every return path of
/// its source yields parts within 1..=100. The sum bound keeps its internal
/// `n + d` from overflowing.
pub assume_specification[ fuzzy_fraction::fuzzy_fraction ](n: usize, d: usize) -> (r: (
    usize,
    usize,
))
    requires
        n as int + d as int <= usize::MAX as int,
    ensures
        r == fuzzy_of(n as int, d as int),
        n >= 1 && d >= 1 ==> 1 <= r.0 <= 100 && 1 <= r.1 <= 100,
;

/// What `parse_custom_ratio` returns for a text with the given bytes.
///
/// A plain decimal is scaled to hundredths and fuzzily approximated against
/// 100 (values at or above one hundred all give (100, 1), so the hundredths
/// are capped at 10000 first); a zero decimal falls back to (2, 1). Any other
/// text contributes its first two digit runs: no runs give the (2, 1)
/// fallback, a single run `a` gives (a, 1), and two runs are fuzzily reduced.
/// Both parts of the result are capped at 100.
pub open spec fn parse_ratio_spec(s: Seq<u8>) -> (usize, usize) {
    if is_plain_decimal(s) {
        let h = dec_hundredths(s);
        let hc = if h > 10000 {
            10000int
        } else {
            h
        };
        if h == 0 {
            (2usize, 1usize)
        } else {
            clamp100(fuzzy_of(hc, 100))
        }
    } else {
        let a = capped_run(run_values(s), 0);
        let b = capped_run(run_values(s), 1);
        if a == 0 && b == 0 {
            (2usize, 1usize)
        } else if b == 0 {
            ((if a > 100 {
                100int
            } else {
                a
            }) as usize, 1usize)
        } else if a == 0 {
            (1usize, (if b > 100 {
                100int
            } else {
                b
            }) as usize)
        } else {
            clamp100(fuzzy_of(a, b))
        }
    }
}

/// Scans the text for the plain-decimal form; returns whether it is one and,
/// if so, its value in hundredths capped at 10000.
fn scan_decimal(b: &[u8]) -> (r: (bool, u64))
    ensures
        r.0 == is_plain_decimal(b@),
        r.0 ==> r.1 == (if dec_hundredths(b@) > 10000 {
            10000int
        } else {
            dec_hundredths(b@)
        }),
{
    let n = b.len();
    let start: usize = if n > 0 && (b[0] == 43 || b[0] == 45) {
        1
    } else {
        0
    };
    let ghost t = sign_stripped(b@);
    proof {
        assert(t =~= b@.skip(start as int));
    }
    let mut ok = true;
    let mut seen_digit = false;
    let mut dots: u8 = 0;
    let mut iv: u64 = 0;
    let mut fcnt: u8 = 0;
    let mut frac: u64 = 0;
    let mut i: usize = start;
    while i < n
        invariant
            start <= i <= n,
            n == b@.len(),
            start <= 1,
            t == b@.skip(start as int),
            dots <= 1,
            fcnt <= 2,
            frac <= 99,
            fcnt <= 1 ==> frac <= 90,
            iv <= 100,
            ok == dec_scan(t.take(i - start)).ok,
            ok ==> seen_digit == dec_scan(t.take(i - start)).seen_digit,
            ok ==> dots as nat == dec_scan(t.take(i - start)).dots,
            ok ==> fcnt as nat == dec_scan(t.take(i - start)).fcnt,
            ok ==> frac as int == dec_scan(t.take(i - start)).frac,
            ok ==> (dec_scan(t.take(i - start)).ival <= 99 && iv as int == dec_scan(
                t.take(i - start),
            ).ival) || (dec_scan(t.take(i - start)).ival >= 100 && iv == 100),
        decreases n - i,
    {
        let ghost k = i - start;
        proof {
            assert(t.take(k + 1).drop_last() =~= t.take(k));
            assert(t.take(k + 1).last() == b@[i as int]);
        }
        let c = b[i];
        if 48 <= c && c <= 57 {
            seen_digit = true;
            if dots == 0 {
                let d = (c - 48) as u64;
                if iv >= 100 {
                    iv = 100;
                } else {
                    let nv = iv * 10 + d;
                    if nv >= 100 {
                        iv = 100;
                    } else {
                        iv = nv;
                    }
                }
            } else if fcnt == 0 {
                fcnt = 1;
                frac = (c - 48) as u64 * 10;
            } else if fcnt == 1 {
                fcnt = 2;
                frac = frac + (c - 48) as u64;
            }
        } else if c == 46 {
            if dots == 0 {
                dots = 1;
            } else {
                ok = false;
            }
        } else {
            ok = false;
        }
        i += 1;
    }
    proof {
        assert(t.take(n - start) =~= t);
    }
    let is_dec = ok && seen_digit && start < n;
    if !is_dec {
        (false, 0)
    } else {
        let h = if iv >= 100 {
            10000u64
        } else {
            iv * 100 + frac
        };
        (true, h)
    }
}

/// Scans the text for its first two maximal digit runs; a missing run, or one
/// whose value exceeds 2147483647, counts as zero.
fn scan_runs(b: &[u8]) -> (r: (u64, u64))
    ensures
        r.0 == capped_run(run_values(b@), 0),
        r.1 == capped_run(run_values(b@), 1),
        r.0 <= 2147483647,
        r.1 <= 2147483647,
{
    let n = b.len();
    let mut vals: Vec<u64> = Vec::new();
    let mut i: usize = 0;
    while i < n
        invariant
            0 <= i <= n,
            n == b@.len(),
            vals@.len() == run_values(b@.take(i as int)).len(),
            forall|k: int|
                0 <= k < vals@.len() ==> {
                    let v = run_values(b@.take(i as int))[k];
                    (v <= 2147483647 && (#[trigger] vals@[k]) as int == v) || (v > 2147483647
                        && 2147483647 < vals@[k] <= 4000000000)
                },
        decreases n - i,
    {
        let ghost rv_pre = run_values(b@.take(i as int));
        proof {
            assert(b@.take(i + 1).drop_last() =~= b@.take(i as int));
            assert(b@.take(i + 1).last() == b@[i as int]);
        }
        let c = b[i];
        if 48 <= c && c <= 57 {
            let d = (c - 48) as u64;
            let continuing = i > 0 && {
                let p = b[i - 1];
                48 <= p && p <= 57
            };
            if continuing {
                proof {
                    assert(b@.take(i + 1)[i - 1] == b@[i - 1]);
                    assert(run_values(b@.take(i + 1)) == rv_pre.update(
                        rv_pre.len() - 1,
                        rv_pre.last() * 10 + digit_val(b@[i as int]),
                    ));
                    assert(rv_pre.len() >= 1) by {
                        lemma_run_values_nonempty(b@.take(i as int));
                    }
                }
                let last = vals.len() - 1;
                let lv = vals[last];
                let nv = lv * 10 + d;
                if nv > 4000000000 {
                    vals.set(last, 4000000000);
                } else {
                    vals.set(last, nv);
                }
            } else {
                vals.push(d);
            }
        }
        i += 1;
    }
    proof {
        assert(b@.take(n as int) =~= b@);
    }
    let a = if vals.len() > 0 {
        let v = vals[0];
        if v > 2147483647 {
            0
        } else {
            v
        }
    } else {
        0
    };
    let second = if vals.len() > 1 {
        let v = vals[1];
        if v > 2147483647 {
            0
        } else {
            v
        }
    } else {
        0
    };
    (a, second)
}

/// A nonempty text ending in a digit has at least one digit run.
proof fn lemma_run_values_nonempty(s: Seq<u8>)
    requires
        s.len() > 0,
        is_digit_byte(s.last()),
    ensures
        run_values(s).len() >= 1,
    decreases s.len(),
{
    if s.len() >= 2 && is_digit_byte(s[s.len() - 2]) {
        lemma_run_values_nonempty(s.drop_last());
    }
}

/// Parses free ratio text into a (width, height) integer pair, both parts in
/// 1..=100 — except that a plain decimal of value zero, or text without any
/// digits, falls back to (2, 1). A plain decimal (optional sign, digits, at
/// most one dot) is read as height/width; any other text contributes its
/// first two digit runs.
pub fn parse_custom_ratio(raw_text: &str) -> (r: (usize, usize))
    ensures
        r == parse_ratio_spec(raw_text.spec_bytes()),
{
    let b: &[u8] = raw_text.as_bytes();
    let (is_dec, h) = scan_decimal(b);
    if is_dec {
        if h == 0 {
            return (2, 1);
        }
        let p = fuzzy_fraction::fuzzy_fraction(h as usize, 100);
        let x = if p.0 > 100 {
            100
        } else {
            p.0
        };
        let y = if p.1 > 100 {
            100
        } else {
            p.1
        };
        return (x, y);
    }
    let (a, second) = scan_runs(b);
    if a == 0 && second == 0 {
        (2, 1)
    } else if second == 0 {
        let x = if a > 100 {
            100u64
        } else {
            a
        };
        (x as usize, 1)
    } else if a == 0 {
        let y = if second > 100 {
            100u64
        } else {
            second
        };
        (1, y as usize)
    } else {
        let p = fuzzy_fraction::fuzzy_fraction(a as usize, second as usize);
        let x = if p.0 > 100 {
            100
        } else {
            p.0
        };
        let y = if p.1 > 100 {
            100
        } else {
            p.1
        };
        (x, y)
    }
}

/// The target aspect ratio of the canvas: a fixed preset, the window's own
/// ratio captured as a pixel pair, or a custom integer ratio from user text.
#[derive(Debug, Clone, Copy, PartialEq, Eq, Structural)]
pub enum AspectRatio {
    Square,
    FourThree,
    ThreeFour,
    ThreeTwo,
    TwoThree,
    SixteenNine,
    NineSixteen,
    /// Window height and width in pixels, captured when the ratio was chosen.
    Window(u32, u32),
    /// Custom ratio as (width part, height part), as entered by the user.
    Custom(u32, u32),
}

impl AspectRatio {
    /// Both parts of the ratio are positive and small enough for the layout
    /// search's arithmetic.
    pub open spec fn wf(self) -> bool {
        match self {
            AspectRatio::Window(h, w) => 1 <= h <= RATIO_PART_LIMIT && 1 <= w
                <= RATIO_PART_LIMIT,
            AspectRatio::Custom(a, b) => 1 <= a <= RATIO_PART_LIMIT && 1 <= b
                <= RATIO_PART_LIMIT,
            _ => true,
        }
    }

    /// The height-over-width divisor as an exact fraction (numerator, denominator).
    pub open spec fn div_spec(self) -> (u64, u64) {
        match self {
            AspectRatio::Square => (1u64, 1u64),
            AspectRatio::FourThree => (3u64, 4u64),
            AspectRatio::ThreeFour => (4u64, 3u64),
            AspectRatio::ThreeTwo => (2u64, 3u64),
            AspectRatio::TwoThree => (3u64, 2u64),
            AspectRatio::SixteenNine => (9u64, 16u64),
            AspectRatio::NineSixteen => (16u64, 9u64),
            AspectRatio::Window(h, w) => (h as u64, w as u64),
            AspectRatio::Custom(a, b) => (b as u64, a as u64),
        }
    }

    /// Height-over-width divisor of the ratio, as a fraction
    /// (numerator, denominator); e.g. 4:3 gives (3, 4).
    pub fn div(&self) -> (r: (u64, u64))
        ensures
            r == self.div_spec(),
            self.wf() ==> 1 <= r.0 <= RATIO_PART_LIMIT && 1 <= r.1 <= RATIO_PART_LIMIT,
    {
        match self {
            AspectRatio::Square => (1, 1),
            AspectRatio::FourThree => (3, 4),
            AspectRatio::ThreeFour => (4, 3),
            AspectRatio::ThreeTwo => (2, 3),
            AspectRatio::TwoThree => (3, 2),
            AspectRatio::SixteenNine => (9, 16),
            AspectRatio::NineSixteen => (16, 9),
            AspectRatio::Window(h, w) => (*h as u64, *w as u64),
            AspectRatio::Custom(a, b) => (*b as u64, *a as u64),
        }
    }
}

impl Default for AspectRatio {
    fn default() -> (r: Self)
        ensures
            r == AspectRatio::Square,
    {
        AspectRatio::Square
    }
}

/// The output resolution preset for rendering a solved layout.
#[derive(Debug, Clone, Copy, PartialEq, Eq, Structural)]
pub enum ImageScaling {
    /// Live preview at the given pixel width.
    Preview(u32),
    /// Fit the output inside the given screen size.
    FitScreen(RectSize),
    HalfK,
    OneK,
    TwoK,
    FourK,
    /// No resampling: the output keeps the solved layout's own pixel extent.
    Actual,
}

impl ImageScaling {
    /// Any screen or preview size the scaling carries stays within SIDE_LIMIT.
    pub open spec fn wf(self) -> bool {
        match self {
            ImageScaling::Preview(w) => w as u64 <= SIDE_LIMIT,
            ImageScaling::FitScreen(s) => s.w as u64 <= SIDE_LIMIT && s.h as u64 <= SIDE_LIMIT,
            _ => true,
        }
    }
}

impl Default for ImageScaling {
    fn default() -> (r: Self)
        ensures
            r == ImageScaling::OneK,
    {
        ImageScaling::OneK
    }
}

/// `side * num / den`, capped at SIDE_LIMIT.
pub open spec fn scale_side_spec(side: u64, num: u64, den: u64) -> u64
    recommends
        den >= 1,
{
    let v = (side as int * num as int) / den as int;
    if v > SIDE_LIMIT as int {
        SIDE_LIMIT
    } else {
        v as u64
    }
}

/// Multiplies a side by a ratio `num / den`, rounding down and capping the
/// result at SIDE_LIMIT.
fn scale_side(side: u64, num: u64, den: u64) -> (r: u64)
    requires
        side <= SIDE_LIMIT,
        1 <= num <= RATIO_PART_LIMIT,
        1 <= den <= RATIO_PART_LIMIT,
    ensures
        r == scale_side_spec(side, num, den),
        r <= SIDE_LIMIT,
{
    assert(side as int * num as int <= SIDE_LIMIT as int * RATIO_PART_LIMIT as int)
        by (nonlinear_arith)
        requires
            side <= SIDE_LIMIT,
            num <= RATIO_PART_LIMIT,
    ;
    let v = side * num / den;
    if v > SIDE_LIMIT {
        SIDE_LIMIT
    } else {
        v
    }
}

/// The pixel size of a render target for the given scaling preset and aspect
/// ratio: the fixed presets produce a rectangle whose larger side is the
/// preset's pixel count, `Preview` fixes the width, `FitScreen` fits inside
/// the screen, and `Actual` yields (0, 0) because the true extent is only
/// known from a solved layout. Sides are capped at SIDE_LIMIT.
pub open spec fn by_scale_and_ratio_spec(scaling: ImageScaling, aspect: AspectRatio) -> RectSize {
    let num = aspect.div_spec().0;
    let den = aspect.div_spec().1;
    match scaling {
        ImageScaling::Preview(w) => RectSize {
            w: w as usize,
            h: scale_side_spec(w as u64, num, den) as usize,
        },
        ImageScaling::FitScreen(s) => {
            if num as int * s.w as int <= den as int * s.h as int {
                RectSize { w: s.w, h: scale_side_spec(s.w as u64, num, den) as usize }
            } else {
                RectSize { w: scale_side_spec(s.h as u64, den, num) as usize, h: s.h }
            }
        },
        ImageScaling::Actual => RectSize { w: 0, h: 0 },
        _ => {
            let side: u64 = match scaling {
                ImageScaling::HalfK => 512,
                ImageScaling::OneK => 1024,
                ImageScaling::TwoK => 2048,
                _ => 4096,
            };
            if num <= den {
                RectSize { w: side as usize, h: scale_side_spec(side, num, den) as usize }
            } else {
                RectSize { w: scale_side_spec(side, den, num) as usize, h: side as usize }
            }
        },
    }
}

impl RectSize {
    /// The render-target size for a scaling preset under an aspect ratio.
    pub fn by_scale_and_ratio(scaling: &ImageScaling, aspect: &AspectRatio) -> (r: RectSize)
        requires
            scaling.wf(),
            aspect.wf(),
        ensures
            r == by_scale_and_ratio_spec(*scaling, *aspect),
            r.w as u64 <= SIDE_LIMIT,
            r.h as u64 <= SIDE_LIMIT,
    {
        let (num, den) = aspect.div();
        match scaling {
            ImageScaling::Preview(w) => {
                let h = scale_side(*w as u64, num, den);
                RectSize { w: *w as usize, h: h as usize }
            },
            ImageScaling::FitScreen(s) => {
                assert(num as int * s.w as int <= RATIO_PART_LIMIT as int * SIDE_LIMIT as int
                    && den as int * s.h as int <= RATIO_PART_LIMIT as int * SIDE_LIMIT as int)
                    by (nonlinear_arith)
                    requires
                        num <= RATIO_PART_LIMIT && den <= RATIO_PART_LIMIT,
                        s.w as u64 <= SIDE_LIMIT && s.h as u64 <= SIDE_LIMIT,
                ;
                if num * (s.w as u64) <= den * (s.h as u64) {
                    let h = scale_side(s.w as u64, num, den);
                    RectSize { w: s.w, h: h as usize }
                } else {
                    let w = scale_side(s.h as u64, den, num);
                    RectSize { w: w as usize, h: s.h }
                }
            },
            ImageScaling::Actual => RectSize { w: 0, h: 0 },
            _ => {
                let side: u64 = match scaling {
                    ImageScaling::HalfK => 512,
                    ImageScaling::OneK => 1024,
                    ImageScaling::TwoK => 2048,
                    _ => 4096,
                };
                if num <= den {
                    let h = scale_side(side, num, den);
                    RectSize { w: side as usize, h: h as usize }
                } else {
                    let w = scale_side(side, den, num);
                    RectSize { w: w as usize, h: side as usize }
                }
            },
        }
    }
}

} // verus!
