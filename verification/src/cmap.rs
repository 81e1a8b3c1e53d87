//! Colours, palettes, and the text form of a colour map.
//!
//! A colour map is a list of lines. A line that starts with `#` carries a
//! colour: a hexadecimal code of three digits (`#RGB`, each digit doubled) or
//! six (`#RRGGBB`), which ends at the first space or at the end of the line.
//! Every other line is skipped.

use vstd::prelude::*;
use vstd::string::StringSliceAdditionalSpecFns;

verus! {

/// An 8-bit RGB colour.
#[derive(Debug, Clone, Copy, PartialEq, Eq, Structural)]
pub struct Pixel {
    pub r: u8,
    pub g: u8,
    pub b: u8,
}

/// An ordered list of colours; index 0 colours iteration count 0.
pub type ColourMap = Vec<Pixel>;

/// The colour of points that never escape.
pub open spec fn black() -> Pixel {
    Pixel { r: 0, g: 0, b: 0 }
}

impl Pixel {
    /// The colour of points that never escape.
    pub fn black() -> (p: Pixel)
        ensures
            p == black(),
    {
        Pixel { r: 0, g: 0, b: 0 }
    }
}

/// Why a line that starts with `#` carries no colour.
#[derive(Debug, Clone, Copy, PartialEq, Eq, Structural)]
pub enum LineError {
    /// What stands between the `#` and the end of the code is no hexadecimal
    /// number that fits in 32 bits.
    BadHex,
    /// The code is a number, but the code and its `#` are `parse_to` bytes
    /// long, which is neither 4 nor 7.
    UnrecognisedHexcode { parse_to: usize },
}

/// Why a colour map was turned down.
#[derive(Debug, Clone, Copy, PartialEq, Eq, Structural)]
pub enum CmapError {
    /// Line `line` (counted from 0) failed with `LineError::BadHex`.
    BadHex { line: usize },
    /// Line `line` (counted from 0) failed with
    /// `LineError::UnrecognisedHexcode`.
    UnrecognisedHexcode { line: usize, parse_to: usize },
    /// No line carries a colour.
    Empty,
}

/// The value of the hexadecimal digit `b`, in either case.
pub open spec fn hex_digit_value(b: u8) -> Option<u8> {
    if 0x30 <= b <= 0x39 {
        Some((b - 0x30) as u8)
    } else if 0x61 <= b <= 0x66 {
        Some((b - 0x61 + 10) as u8)
    } else if 0x41 <= b <= 0x46 {
        Some((b - 0x41 + 10) as u8)
    } else {
        None
    }
}

/// Every byte of `digits` is a hexadecimal digit.
pub open spec fn all_hex(digits: Seq<u8>) -> bool {
    forall|i: int| 0 <= i < digits.len() ==> (#[trigger] hex_digit_value(digits[i])) is Some
}

/// The number that the hexadecimal digits `digits` write, most significant
/// digit first. A byte that is no digit counts as 0.
pub open spec fn hex_value(digits: Seq<u8>) -> nat
    decreases digits.len(),
{
    if digits.len() == 0 {
        0
    } else {
        let low: nat = match hex_digit_value(digits.last()) {
            Some(d) => d as nat,
            None => 0,
        };
        16 * hex_value(digits.drop_last()) + low
    }
}

/// The digits of a code: the code without its leading `+`, if it has one.
pub open spec fn digits_of(code: Seq<u8>) -> Seq<u8> {
    if code.len() > 0 && code[0] == 0x2b {
        code.skip(1)
    } else {
        code
    }
}

/// `code` is an optional `+` and then at least one hexadecimal digit, and the
/// number it writes fits in 32 bits.
pub open spec fn is_hex_number(code: Seq<u8>) -> bool {
    let digits = digits_of(code);
    digits.len() > 0 && all_hex(digits) && hex_value(digits) <= u32::MAX
}

/// Where the code of a line ends: the index of its first space, or its length
/// where it holds none.
pub open spec fn code_end(line: Seq<u8>) -> nat
    decreases line.len(),
{
    if line.len() == 0 || line[0] == 0x20 {
        0
    } else {
        1 + code_end(line.skip(1))
    }
}

/// The colour of a three-digit code of value `v`: each digit is doubled.
pub open spec fn short_colour(v: nat) -> Pixel {
    Pixel {
        r: (17 * ((v / 256) % 16)) as u8,
        g: (17 * ((v / 16) % 16)) as u8,
        b: (17 * (v % 16)) as u8,
    }
}

/// The colour of a six-digit code of value `v`.
pub open spec fn long_colour(v: nat) -> Pixel {
    Pixel { r: ((v / 65536) % 256) as u8, g: ((v / 256) % 256) as u8, b: (v % 256) as u8 }
}

/// What one line of a colour map holds: nothing, a colour, or an error.
pub open spec fn colour_of_line(line: Seq<u8>) -> Result<Option<Pixel>, LineError> {
    if line.len() == 0 || line[0] != 0x23 {
        Ok(None)
    } else {
        let end = code_end(line);
        let code = line.subrange(1, end as int);
        if !is_hex_number(code) {
            Err(LineError::BadHex)
        } else if end == 4 {
            Ok(Some(short_colour(hex_value(digits_of(code)))))
        } else if end == 7 {
            Ok(Some(long_colour(hex_value(digits_of(code)))))
        } else {
            Err(LineError::UnrecognisedHexcode { parse_to: end as usize })
        }
    }
}

/// The colours of the lines `lines`, in their order, or the error of the
/// first line that has one.
pub open spec fn colours_of(lines: Seq<Seq<u8>>) -> Result<Seq<Pixel>, CmapError>
    decreases lines.len(),
{
    if lines.len() == 0 {
        Ok(Seq::empty())
    } else {
        match colours_of(lines.drop_last()) {
            Err(e) => Err(e),
            Ok(colours) => match colour_of_line(lines.last()) {
                Ok(None) => Ok(colours),
                Ok(Some(p)) => Ok(colours.push(p)),
                Err(LineError::BadHex) => Err(CmapError::BadHex { line: (lines.len() - 1) as usize }),
                Err(LineError::UnrecognisedHexcode { parse_to }) => Err(
                    CmapError::UnrecognisedHexcode { line: (lines.len() - 1) as usize, parse_to },
                ),
            },
        }
    }
}

/// The bytes of each line.
pub open spec fn bytes_of(lines: Seq<&str>) -> Seq<Seq<u8>> {
    Seq::new(lines.len(), |i: int| lines[i].spec_bytes())
}

/// A colour map that holds at least one colour.
pub struct Palette {
    colours: ColourMap,
}

impl View for Palette {
    type V = Seq<Pixel>;

    closed spec fn view(&self) -> Seq<Pixel> {
        self.colours@
    }
}

impl Palette {
    #[verifier::type_invariant]
    spec fn holds_a_colour(&self) -> bool {
        self.colours@.len() > 0
    }

    /// Makes a palette of `colours`, which must hold at least one colour.
    pub fn new(colours: ColourMap) -> (r: Result<Palette, CmapError>)
        ensures
            match r {
                Ok(palette) => colours@.len() > 0 && palette@ == colours@,
                Err(e) => colours@.len() == 0 && e == CmapError::Empty,
            },
    {
        if colours.len() == 0 {
            Err(CmapError::Empty)
        } else {
            Ok(Palette { colours })
        }
    }

    /// The number of colours, which is never 0.
    pub fn len(&self) -> (n: usize)
        ensures
            n == self@.len(),
            n > 0,
    {
        proof {
            use_type_invariant(self);
        }
        self.colours.len()
    }

    /// The colours in their order.
    pub fn colours(&self) -> (colours: &ColourMap)
        ensures
            colours@ == self@,
            colours@.len() > 0,
    {
        proof {
            use_type_invariant(self);
        }
        &self.colours
    }
}

fn hex_digit(b: u8) -> (r: Option<u8>)
    ensures
        r == hex_digit_value(b),
        r matches Some(d) ==> d < 16,
{
    if 0x30 <= b && b <= 0x39 {
        Some(b - 0x30)
    } else if 0x61 <= b && b <= 0x66 {
        Some(b - 0x61 + 10)
    } else if 0x41 <= b && b <= 0x46 {
        Some(b - 0x41 + 10)
    } else {
        None
    }
}

proof fn lemma_hex_value_grows(digits: Seq<u8>, n: int)
    requires
        0 <= n <= digits.len(),
    ensures
        hex_value(digits.take(n)) <= hex_value(digits),
    decreases digits.len() - n,
{
    if n == digits.len() {
        assert(digits.take(n) == digits);
    } else {
        lemma_hex_value_grows(digits, n + 1);
        assert(digits.take(n + 1).drop_last() == digits.take(n));
    }
}

proof fn lemma_code_end(line: Seq<u8>, end: int)
    requires
        0 <= end <= line.len(),
        forall|i: int| 0 <= i < end ==> line[i] != 0x20,
        end < line.len() ==> line[end] == 0x20,
    ensures
        code_end(line) == end,
    decreases end,
{
    if end > 0 {
        lemma_code_end(line.skip(1), end - 1);
    }
}

/// Reads the hexadecimal number written in `bytes[from..to]`.
fn parse_hex(bytes: &[u8], from: usize, to: usize) -> (r: Option<u32>)
    requires
        from <= to <= bytes@.len(),
    ensures
        r is Some <==> is_hex_number(bytes@.subrange(from as int, to as int)),
        r matches Some(v) ==> v == hex_value(digits_of(bytes@.subrange(from as int, to as int))),
{
    let first = if from < to && bytes[from] == 0x2b {
        from + 1
    } else {
        from
    };
    let ghost digits = bytes@.subrange(first as int, to as int);
    if first == to {
        return None;
    }
    let mut value: u32 = 0;
    let mut k = first;
    while k < to
        invariant
            first <= k <= to <= bytes@.len(),
            digits == bytes@.subrange(first as int, to as int),
            digits == digits_of(bytes@.subrange(from as int, to as int)),
            all_hex(digits.take(k - first)),
            value == hex_value(digits.take(k - first)),
        decreases to - k,
    {
        let ghost seen = digits.take(k - first);
        let ghost more = digits.take(k + 1 - first);
        assert(more.drop_last() == seen);
        match hex_digit(bytes[k]) {
            None => {
                assert(hex_digit_value(digits[k - first]) is None);
                return None;
            },
            Some(d) => {
                if value > (u32::MAX - d as u32) / 16 {
                    proof {
                        lemma_hex_value_grows(digits, k + 1 - first);
                    }
                    return None;
                }
                value = value * 16 + d as u32;
                assert forall|i: int| 0 <= i < more.len() implies (#[trigger] hex_digit_value(
                    more[i],
                )) is Some by {
                    if i < seen.len() {
                        assert(more[i] == seen[i]);
                    }
                }
            },
        }
        k = k + 1;
    }
    assert(digits.take(to - first) == digits);
    Some(value)
}

/// The index of the first space of `bytes`, or its length.
fn find_code_end(bytes: &[u8]) -> (end: usize)
    ensures
        end == code_end(bytes@),
        end <= bytes@.len(),
{
    let mut k: usize = 0;
    while k < bytes.len() && bytes[k] != 0x20
        invariant
            k <= bytes@.len(),
            forall|i: int| 0 <= i < k ==> bytes@[i] != 0x20,
        decreases bytes@.len() - k,
    {
        k = k + 1;
    }
    proof {
        lemma_code_end(bytes@, k as int);
    }
    k
}

fn short_code(v: u32) -> (p: Pixel)
    ensures
        p == short_colour(v as nat),
{
    let r: u8 = ((v >> 8) & 0xF) as u8;
    let g: u8 = ((v >> 4) & 0xF) as u8;
    let b: u8 = (v & 0xF) as u8;
    assert(((v >> 8) & 0xF) == (v / 256) % 16 && ((v >> 4) & 0xF) == (v / 16) % 16 && (v & 0xF) == v
        % 16) by (bit_vector);
    assert(r < 16 ==> (r << 4 | r) == 17 * r) by (bit_vector);
    assert(g < 16 ==> (g << 4 | g) == 17 * g) by (bit_vector);
    assert(b < 16 ==> (b << 4 | b) == 17 * b) by (bit_vector);
    Pixel { r: r << 4 | r, g: g << 4 | g, b: b << 4 | b }
}

fn long_code(v: u32) -> (p: Pixel)
    ensures
        p == long_colour(v as nat),
{
    assert(((v >> 16) & 0xFF) == (v / 65536) % 256 && ((v >> 8) & 0xFF) == (v / 256) % 256 && (v
        & 0xFF) == v % 256) by (bit_vector);
    Pixel { r: ((v >> 16) & 0xFF) as u8, g: ((v >> 8) & 0xFF) as u8, b: (v & 0xFF) as u8 }
}

/// Reads one line of a colour map.
///
/// A line that does not start with `#` holds nothing. Otherwise its code runs
/// from behind the `#` to the first space or the end of the line, and must be
/// a hexadecimal number; three digits give a colour with each digit doubled,
/// six digits give the colour as written.
pub fn colour_from_line(line: &str) -> (r: Result<Option<Pixel>, LineError>)
    ensures
        r == colour_of_line(line.spec_bytes()),
{
    let bytes = line.as_bytes();
    if bytes.len() == 0 || bytes[0] != 0x23 {
        return Ok(None);
    }
    let end = find_code_end(bytes);
    assert(end >= 1) by {
        if end == 0 {
            assert(bytes@[0] == 0x20);
        }
    }
    match parse_hex(bytes, 1, end) {
        None => Err(LineError::BadHex),
        Some(v) => {
            if end == 4 {
                Ok(Some(short_code(v)))
            } else if end == 7 {
                Ok(Some(long_code(v)))
            } else {
                Err(LineError::UnrecognisedHexcode { parse_to: end })
            }
        },
    }
}

/// Reads a colour map from its lines.
///
/// The colours come in the order of their lines. The first line in error
/// fails the whole map, and so does a map without any colour.
pub fn parse_cmap(lines: &[&str]) -> (r: Result<Palette, CmapError>)
    ensures
        match colours_of(bytes_of(lines@)) {
            Err(e) => r == Err::<Palette, CmapError>(e),
            Ok(colours) => if colours.len() == 0 {
                r == Err::<Palette, CmapError>(CmapError::Empty)
            } else {
                r matches Ok(palette) && palette@ == colours
            },
        },
{
    let mut colours: ColourMap = Vec::new();
    let mut k: usize = 0;
    let ghost all = bytes_of(lines@);
    while k < lines.len()
        invariant
            k <= lines@.len(),
            all == bytes_of(lines@),
            colours_of(all.take(k as int)) == Ok::<Seq<Pixel>, CmapError>(colours@),
        decreases lines@.len() - k,
    {
        assert(all.take(k + 1).drop_last() == all.take(k as int));
        match colour_from_line(lines[k]) {
            Ok(None) => {},
            Ok(Some(p)) => {
                colours.push(p);
            },
            Err(LineError::BadHex) => {
                proof {
                    lemma_first_error_stands(all, k + 1);
                }
                return Err(CmapError::BadHex { line: k });
            },
            Err(LineError::UnrecognisedHexcode { parse_to }) => {
                proof {
                    lemma_first_error_stands(all, k + 1);
                }
                return Err(CmapError::UnrecognisedHexcode { line: k, parse_to });
            },
        }
        k = k + 1;
    }
    assert(all.take(k as int) == all);
    Palette::new(colours)
}

proof fn lemma_first_error_stands(lines: Seq<Seq<u8>>, n: int)
    requires
        0 <= n <= lines.len(),
        colours_of(lines.take(n)) is Err,
    ensures
        colours_of(lines) == colours_of(lines.take(n)),
    decreases lines.len() - n,
{
    if n == lines.len() {
        assert(lines.take(n) == lines);
    } else {
        assert(lines.take(n + 1).drop_last() == lines.take(n));
        lemma_first_error_stands(lines, n + 1);
    }
}

/// A three-digit code stands for the six-digit code with each digit written
/// twice: `#RGB` is the colour `#RRGGBB`.
pub proof fn lemma_short_code_doubles_digits(r: nat, g: nat, b: nat)
    requires
        r < 16,
        g < 16,
        b < 16,
    ensures
        short_colour(256 * r + 16 * g + b) == long_colour(
            65536 * (16 * r + r) + 256 * (16 * g + g) + (16 * b + b),
        ),
{
    let short = 256 * r + 16 * g + b;
    assert(short / 256 == r && short / 16 == 16 * r + g);
    assert((short / 256) % 16 == r && (short / 16) % 16 == g && short % 16 == b);
    let long = 65536 * (16 * r + r) + 256 * (16 * g + g) + (16 * b + b);
    assert(long / 65536 == 17 * r && long / 256 == 256 * (17 * r) + 17 * g);
    assert((long / 65536) % 256 == 17 * r && (long / 256) % 256 == 17 * g && long % 256 == 17 * b);
}

} // verus!
