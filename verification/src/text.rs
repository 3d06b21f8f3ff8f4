//! Styled text handed to the renderer: a drained block value together with
//! the colors, font and padding its block asks for.

pub mod color;

use crate::scan;
use color::Color;
use vstd::prelude::*;

verus! {

// ---------------------------------------------------------------------------
// offsets
// ---------------------------------------------------------------------------

/// A signed decimal length, kept digit by digit so that no precision is lost:
/// an optional sign, the digits before the decimal point, and the digits
/// after it, each digit stored by value.  This is deliberately the whole
/// grammar of a length: exponent notation and the special floating-point
/// names have no place in a configuration and are rejected as invalid
/// numbers.
#[derive(Clone, Debug)]
pub struct Offset {
    pub neg: bool,
    pub int_digits: Vec<u8>,
    pub frac_digits: Vec<u8>,
}

#[verifier::ext_equal]
pub struct OffsetV {
    pub neg: bool,
    pub int_digits: Seq<u8>,
    pub frac_digits: Seq<u8>,
}

impl View for Offset {
    type V = OffsetV;

    open spec fn view(&self) -> OffsetV {
        OffsetV { neg: self.neg, int_digits: self.int_digits@, frac_digits: self.frac_digits@ }
    }
}

impl OffsetV {
    /// The representation of a length of zero.
    pub open spec fn zero() -> OffsetV {
        OffsetV { neg: false, int_digits: seq![0u8], frac_digits: Seq::empty() }
    }
}

/// The digit values of a digit string.
pub open spec fn digit_seq(s: Seq<char>) -> Seq<u8> {
    Seq::new(s.len(), |k: int| scan::digit_val(s[k]) as u8)
}

/// How an offset value is read: an optional sign, then digits with at most
/// one decimal point among them, at least one digit in all.  Nothing else is
/// a length: exponent forms are rejected.
pub open spec fn parse_offset_spec(s: Seq<char>) -> Option<OffsetV> {
    let d = if s.len() >= 1 && (s[0] == '+' || s[0] == '-') {
        s.drop_first()
    } else {
        s
    };
    let neg = s.len() >= 1 && s[0] == '-';
    let dot = scan::first_at(d, '.');
    if 0 <= dot <= d.len() {
        let ip = d.subrange(0, dot);
        let fp = if dot < d.len() {
            d.subrange(dot + 1, d.len() as int)
        } else {
            Seq::empty()
        };
        if scan::all_digits(ip) && scan::all_digits(fp) && ip.len() + fp.len() >= 1 {
            Some(OffsetV { neg, int_digits: digit_seq(ip), frac_digits: digit_seq(fp) })
        } else {
            None
        }
    } else {
        None
    }
}

/// Reads a digit string into digit values.
fn digit_vec(s: &str) -> (r: Option<Vec<u8>>)
    ensures
        match r {
            Some(v) => scan::all_digits(s@) && v@ == digit_seq(s@),
            None => !scan::all_digits(s@),
        },
{
    let n = s.unicode_len();
    let mut out: Vec<u8> = Vec::new();
    let mut k: usize = 0;
    while k < n
        invariant
            0 <= k <= n,
            n == s@.len(),
            out@.len() == k,
            forall|j: int| 0 <= j < k ==> scan::is_digit(s@[j]),
            forall|j: int| 0 <= j < k ==> out@[j] == scan::digit_val(s@[j]) as u8,
        decreases n - k,
    {
        match scan::digit(s.get_char(k)) {
            Some(d) => {
                out.push(d);
            },
            None => {
                return None;
            },
        }
        k = k + 1;
    }
    proof {
        assert(out@ =~= digit_seq(s@));
    }
    Some(out)
}

impl Offset {
    /// A length of zero.
    pub fn zero() -> (r: Offset)
        ensures
            r@ == OffsetV::zero(),
    {
        let mut int_digits: Vec<u8> = Vec::new();
        int_digits.push(0);
        let r = Offset { neg: false, int_digits, frac_digits: Vec::new() };
        proof {
            assert(r@.int_digits =~= seq![0u8]);
            assert(r@.frac_digits =~= Seq::<u8>::empty());
            assert(r@ =~= OffsetV::zero());
        }
        r
    }

    /// Reads an offset from its configuration text.
    pub fn from_str(s: &str) -> (r: Option<Offset>)
        ensures
            match r {
                Some(o) => parse_offset_spec(s@) == Some(o@),
                None => parse_offset_spec(s@) is None,
            },
    {
        let n = s.unicode_len();
        let mut start: usize = 0;
        let mut neg = false;
        if n >= 1 && (s.get_char(0) == '+' || s.get_char(0) == '-') {
            start = 1;
            neg = s.get_char(0) == '-';
        }
        let d = s.substring_char(start, n);
        let ghost dd = d@;
        proof {
            assert(dd =~= if s@.len() >= 1 && (s@[0] == '+' || s@[0] == '-') {
                s@.drop_first()
            } else {
                s@
            });
        }
        let dn = d.unicode_len();
        let dot = scan::find_char(d, '.');
        proof {
            scan::lemma_first_at_props(d@, '.');
        }
        let ip = digit_vec(d.substring_char(0, dot));
        let fp = if dot < dn {
            digit_vec(d.substring_char(dot + 1, dn))
        } else {
            let e = digit_vec(d.substring_char(dn, dn));
            proof {
                assert(d@.subrange(dn as int, dn as int) =~= Seq::<char>::empty());
                assert(digit_seq(Seq::<char>::empty()) =~= Seq::<u8>::empty());
            }
            e
        };
        match (ip, fp) {
            (Some(ipv), Some(fpv)) => {
                if ipv.len() + fpv.len() >= 1 {
                    Some(Offset { neg, int_digits: ipv, frac_digits: fpv })
                } else {
                    None
                }
            },
            _ => None,
        }
    }
}

// ---------------------------------------------------------------------------
// padding
// ---------------------------------------------------------------------------

/// Space kept free around a rendered text.
#[derive(Clone, Debug)]
pub struct Padding {
    pub left: Offset,
    pub right: Offset,
    pub top: Offset,
    pub bottom: Offset,
}

#[verifier::ext_equal]
pub struct PaddingV {
    pub left: OffsetV,
    pub right: OffsetV,
    pub top: OffsetV,
    pub bottom: OffsetV,
}

impl View for Padding {
    type V = PaddingV;

    open spec fn view(&self) -> PaddingV {
        PaddingV {
            left: self.left@,
            right: self.right@,
            top: self.top@,
            bottom: self.bottom@,
        }
    }
}

impl PaddingV {
    pub open spec fn zero() -> PaddingV {
        PaddingV {
            left: OffsetV::zero(),
            right: OffsetV::zero(),
            top: OffsetV::zero(),
            bottom: OffsetV::zero(),
        }
    }

    /// Padding on the left side alone.
    pub open spec fn left_only(o: OffsetV) -> PaddingV {
        PaddingV { left: o, ..PaddingV::zero() }
    }
}

impl Padding {
    pub fn new(left: Offset, right: Offset, top: Offset, bottom: Offset) -> (r: Padding)
        ensures
            r@ == (PaddingV { left: left@, right: right@, top: top@, bottom: bottom@ }),
    {
        Padding { left, right, top, bottom }
    }

    pub fn zero() -> (r: Padding)
        ensures
            r@ == PaddingV::zero(),
    {
        Padding {
            left: Offset::zero(),
            right: Offset::zero(),
            top: Offset::zero(),
            bottom: Offset::zero(),
        }
    }

    /// Padding on the left side alone.
    pub fn left(left: Offset) -> (r: Padding)
        ensures
            r@ == PaddingV::left_only(left@),
    {
        Padding {
            left,
            right: Offset::zero(),
            top: Offset::zero(),
            bottom: Offset::zero(),
        }
    }
}

// ---------------------------------------------------------------------------
// fonts
// ---------------------------------------------------------------------------

/// A font named as the rendering backend knows it; the empty name stands for
/// the backend's default face.
#[derive(Clone, Debug)]
pub struct Font {
    pub name: String,
}

impl View for Font {
    type V = Seq<char>;

    open spec fn view(&self) -> Seq<char> {
        self.name@
    }
}

impl Font {
    pub fn new(name: &str) -> (r: Font)
        ensures
            r@ == name@,
    {
        Font { name: name.to_owned() }
    }
}

// ---------------------------------------------------------------------------
// attributes and text
// ---------------------------------------------------------------------------

/// The styling applied to one drained block value.
#[derive(Clone, Debug)]
pub struct Attributes {
    pub font: Font,
    pub fg_color: Color,
    pub bg_color: Option<Color>,
    pub padding: Padding,
}

#[verifier::ext_equal]
pub struct AttributesV {
    pub font: Seq<char>,
    pub fg_color: Color,
    pub bg_color: Option<Color>,
    pub padding: PaddingV,
}

impl View for Attributes {
    type V = AttributesV;

    open spec fn view(&self) -> AttributesV {
        AttributesV {
            font: self.font@,
            fg_color: self.fg_color,
            bg_color: self.bg_color,
            padding: self.padding@,
        }
    }
}

impl AttributesV {
    /// The styling of a block that asks for nothing: default face, white
    /// text, no background, no padding.
    pub open spec fn init() -> AttributesV {
        AttributesV {
            font: Seq::empty(),
            fg_color: Color { a: 255, r: 255, g: 255, b: 255 },
            bg_color: None,
            padding: PaddingV::zero(),
        }
    }
}

impl Default for Attributes {
    fn default() -> (r: Attributes)
        ensures
            r@ == AttributesV::init(),
    {
        let r = Attributes {
            font: Font::new(""),
            fg_color: Color::white(),
            bg_color: None,
            padding: Padding::zero(),
        };
        proof {
            reveal_strlit("");
            assert(r@.font =~= Seq::<char>::empty());
            assert(r@ =~= AttributesV::init());
        }
        r
    }
}

impl Attributes {
    pub fn with_padding(self, padding: Padding) -> (r: Attributes)
        ensures
            r@ == (AttributesV { padding: padding@, ..self@ }),
    {
        Attributes { padding, ..self }
    }

    pub fn with_fg_color(self, fg_color: Color) -> (r: Attributes)
        ensures
            r@ == (AttributesV { fg_color, ..self@ }),
    {
        Attributes { fg_color, ..self }
    }

    pub fn with_bg_color(self, bg_color: Option<Color>) -> (r: Attributes)
        ensures
            r@ == (AttributesV { bg_color, ..self@ }),
    {
        Attributes { bg_color, ..self }
    }

    pub fn with_font(self, font: Font) -> (r: Attributes)
        ensures
            r@ == (AttributesV { font: font@, ..self@ }),
    {
        Attributes { font, ..self }
    }
}

/// One drained block value together with its styling, ready for the renderer.
#[derive(Clone, Debug)]
pub struct Text {
    pub attr: Attributes,
    pub text: String,
}

#[verifier::ext_equal]
pub struct TextV {
    pub attr: AttributesV,
    pub text: Seq<char>,
}

impl View for Text {
    type V = TextV;

    open spec fn view(&self) -> TextV {
        TextV { attr: self.attr@, text: self.text@ }
    }
}

} // verus!
