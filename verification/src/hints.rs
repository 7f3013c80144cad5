//! Style declarations that legacy presentation attributes stand for. The
//! cascade applies them below every author rule.

use vstd::prelude::*;
use vstd::string::StringSliceAdditionalSpecFns;
use crate::element::str_eq;
use crate::handle::Handle;
use crate::node::Attribute;
use crate::size_number::is_size_number;
use crate::size_number::is_size_text;
use crate::text::utf8;

verus! {

/// The keyword of a legacy `align` attribute.
#[derive(Clone, Copy, Debug, PartialEq, Eq, Structural)]
pub enum TextAlignKeyword {
    MozLeft,
    MozRight,
    MozCenter,
}

/// A fully opaque colour with one byte for each channel.
#[derive(Clone, Copy, Debug, PartialEq, Eq, Structural)]
pub struct LegacyColor {
    pub r: u8,
    pub g: u8,
    pub b: u8,
}

/// A length in pixels or a percentage. The number is kept as it was
/// written; it is always a number that a size can hold, see
/// [`crate::size_number`]: finite and not below zero.
#[derive(Debug)]
pub enum LengthPercentage {
    /// So many pixels.
    Px(String),
    /// So many hundredths of the reference size.
    Percent(String),
}

/// One declaration that a presentation attribute stands for.
#[derive(Debug)]
pub enum PresentationalHint {
    TextAlign(TextAlignKeyword),
    Width(LengthPercentage),
    Height(LengthPercentage),
    BackgroundColor(LegacyColor),
}

/// What a [`LengthPercentage`] says: the unit and the bytes of the number.
pub enum SizeView {
    Px(Seq<u8>),
    Percent(Seq<u8>),
}

/// What a [`PresentationalHint`] says.
pub enum HintView {
    TextAlign(TextAlignKeyword),
    Width(SizeView),
    Height(SizeView),
    BackgroundColor(LegacyColor),
}

impl View for LengthPercentage {
    type V = SizeView;

    open spec fn view(&self) -> SizeView {
        match self {
            LengthPercentage::Px(number) => SizeView::Px(utf8(number@)),
            LengthPercentage::Percent(number) => SizeView::Percent(utf8(number@)),
        }
    }
}

impl View for PresentationalHint {
    type V = HintView;

    open spec fn view(&self) -> HintView {
        match self {
            PresentationalHint::TextAlign(keyword) => HintView::TextAlign(*keyword),
            PresentationalHint::Width(size) => HintView::Width(size@),
            PresentationalHint::Height(size) => HintView::Height(size@),
            PresentationalHint::BackgroundColor(color) => HintView::BackgroundColor(*color),
        }
    }
}

/// The value of a hexadecimal digit, in either case.
pub open spec fn hex_value(b: u8) -> Option<u8> {
    if 0x30 <= b <= 0x39 {
        Some((b - 0x30) as u8)
    } else if 0x61 <= b <= 0x66 {
        Some((b - 0x61 + 10) as u8)
    } else if 0x41 <= b <= 0x46 {
        Some((b - 0x41 + 10) as u8)
    } else {
        None
    }
}

/// The value of one hexadecimal digit as a channel: 0 to 15, not spread
/// to a byte.
pub open spec fn channel_of_digit(d: u8) -> Option<u8> {
    hex_value(d)
}

/// The value of two hexadecimal digits as a channel.
pub open spec fn channel_of_pair(hi: u8, lo: u8) -> Option<u8> {
    match (hex_value(hi), hex_value(lo)) {
        (Some(h), Some(l)) => Some((16 * h + l) as u8),
        _ => None,
    }
}

/// The colour that a `bgcolor` value stands for: `#` and three digits, one
/// for each channel, or `#` and six digits, two for each channel.
/// Anything else stands for no colour.
pub open spec fn color_of(s: Seq<u8>) -> Option<LegacyColor> {
    if s.len() == 4 && s[0] == 0x23 {
        match (channel_of_digit(s[1]), channel_of_digit(s[2]), channel_of_digit(s[3])) {
            (Some(r), Some(g), Some(b)) => Some(LegacyColor { r, g, b }),
            _ => None,
        }
    } else if s.len() == 7 && s[0] == 0x23 {
        match (channel_of_pair(s[1], s[2]), channel_of_pair(s[3], s[4]), channel_of_pair(s[5], s[6])) {
            (Some(r), Some(g), Some(b)) => Some(LegacyColor { r, g, b }),
            _ => None,
        }
    } else {
        None
    }
}

/// `s` ends in the letters `px`.
pub open spec fn ends_in_px(s: Seq<u8>) -> bool {
    s.len() >= 2 && s[s.len() - 2] == 0x70 && s[s.len() - 1] == 0x78
}

/// `s` ends in a percent sign.
pub open spec fn ends_in_percent(s: Seq<u8>) -> bool {
    s.len() >= 1 && s[s.len() - 1] == 0x25
}

/// The size that a `width` or `height` value stands for: a number and
/// `px`, a number and `%`, or a number alone, which counts in pixels.
/// Where the rest is no number that a size can hold, for one because it
/// is below zero, the value stands for no size.
pub open spec fn size_of(s: Seq<u8>) -> Option<SizeView> {
    if ends_in_px(s) {
        let number = s.take(s.len() - 2);
        if is_size_text(number) {
            Some(SizeView::Px(number))
        } else {
            None
        }
    } else if ends_in_percent(s) {
        let number = s.take(s.len() - 1);
        if is_size_text(number) {
            Some(SizeView::Percent(number))
        } else {
            None
        }
    } else if is_size_text(s) {
        Some(SizeView::Px(s))
    } else {
        None
    }
}

/// The keyword that an `align` value stands for.
pub open spec fn align_of(value: Seq<char>) -> Option<TextAlignKeyword> {
    if value == "left"@ {
        Some(TextAlignKeyword::MozLeft)
    } else if value == "right"@ {
        Some(TextAlignKeyword::MozRight)
    } else if value == "center"@ {
        Some(TextAlignKeyword::MozCenter)
    } else {
        None
    }
}

/// The declaration that one attribute stands for, if it stands for one.
/// Only `align`, `width`, `height` and `bgcolor` do, and only with a value
/// that can be read.
pub open spec fn hint_of(name: Seq<char>, value: Seq<char>) -> Option<HintView> {
    if name == "align"@ {
        match align_of(value) {
            Some(keyword) => Some(HintView::TextAlign(keyword)),
            None => None,
        }
    } else if name == "width"@ {
        match size_of(utf8(value)) {
            Some(size) => Some(HintView::Width(size)),
            None => None,
        }
    } else if name == "height"@ {
        match size_of(utf8(value)) {
            Some(size) => Some(HintView::Height(size)),
            None => None,
        }
    } else if name == "bgcolor"@ {
        match color_of(utf8(value)) {
            Some(color) => Some(HintView::BackgroundColor(color)),
            None => None,
        }
    } else {
        None
    }
}

/// The declarations that the attributes stand for, in the order of the
/// attributes.
pub open spec fn hints_of(attrs: Seq<Attribute>) -> Seq<HintView>
    decreases attrs.len(),
{
    if attrs.len() == 0 {
        Seq::empty()
    } else {
        let before = hints_of(attrs.drop_last());
        match hint_of(attrs.last().name@, attrs.last().value@) {
            Some(hint) => before.push(hint),
            None => before,
        }
    }
}

/// What the hints of a list say, one by one.
pub open spec fn hint_views(hints: Seq<PresentationalHint>) -> Seq<HintView> {
    hints.map_values(|h: PresentationalHint| h@)
}

fn hex_digit(b: u8) -> (r: Option<u8>)
    ensures
        r == hex_value(b),
{
    if 0x30 <= b && b <= 0x39 {
        Some(b - 0x30)
    } else if 0x61 <= b && b <= 0x66 {
        Some(b - 0x61 + 10)
    } else if 0x41 <= b && b <= 0x46 {
        Some(b - 0x41 + 10)
    } else {
        None
    }
}

fn hex_pair(hi: u8, lo: u8) -> (r: Option<u8>)
    ensures
        r == channel_of_pair(hi, lo),
{
    match (hex_digit(hi), hex_digit(lo)) {
        (Some(h), Some(l)) => Some(16 * h + l),
        _ => None,
    }
}

/// Reads a legacy colour: `#rgb`, where each digit is the channel's value
/// from 0 to 15 as it stands, or `#rrggbb`. Anything else is no colour.
pub fn parse_color_attr(value: &str) -> (r: Option<LegacyColor>)
    ensures
        r == color_of(utf8(value@)),
{
    let s = value.as_bytes();
    if s.len() == 4 && s[0] == 0x23 {
        match (hex_digit(s[1]), hex_digit(s[2]), hex_digit(s[3])) {
            (Some(r), Some(g), Some(b)) => Some(LegacyColor { r, g, b }),
            _ => None,
        }
    } else if s.len() == 7 && s[0] == 0x23 {
        match (hex_pair(s[1], s[2]), hex_pair(s[3], s[4]), hex_pair(s[5], s[6])) {
            (Some(r), Some(g), Some(b)) => Some(LegacyColor { r, g, b }),
            _ => None,
        }
    } else {
        None
    }
}

/// Reads a legacy `align` value.
pub fn parse_align_attr(value: &str) -> (r: Option<TextAlignKeyword>)
    ensures
        r == align_of(value@),
{
    if str_eq(value, "left") {
        Some(TextAlignKeyword::MozLeft)
    } else if str_eq(value, "right") {
        Some(TextAlignKeyword::MozRight)
    } else if str_eq(value, "center") {
        Some(TextAlignKeyword::MozCenter)
    } else {
        None
    }
}

/// The text of `value` without its last `cut` bytes, where the first of
/// those bytes is an ASCII byte.
fn without_suffix(value: &str, cut: usize) -> (r: String)
    requires
        0 < cut <= utf8(value@).len(),
        utf8(value@)[utf8(value@).len() - cut] < 0x80,
    ensures
        utf8(r@) == utf8(value@).take(utf8(value@).len() - cut),
{
    let mid: usize = value.as_bytes().len() - cut;
    proof {
        let bytes = utf8(value@);
        assert(bytes == value.spec_bytes());
        vstd::utf8::encode_utf8_valid_utf8(value@);
        vstd::utf8::is_char_boundary_iff_not_is_continuation_byte(bytes, mid as int);
        assert(!vstd::utf8::is_continuation_byte(bytes[mid as int]));
        assert(vstd::utf8::is_char_boundary(bytes, mid as int));
    }
    let (head, _) = value.split_at(mid);
    let r = head.to_owned();
    proof {
        assert(utf8(r@) == head.spec_bytes());
        assert(utf8(value@).subrange(0, mid as int) =~= utf8(value@).take(mid as int));
    }
    r
}

/// What a size says, if there is one.
pub open spec fn size_view(size: Option<LengthPercentage>) -> Option<SizeView> {
    match size {
        Some(s) => Some(s@),
        None => None,
    }
}

/// Reads a legacy size: a number followed by `px`, by `%`, or by nothing,
/// which counts as pixels. A value whose number cannot be read, or is
/// below zero or too large to be finite, is no size.
pub fn parse_size_attr(value: &str) -> (r: Option<LengthPercentage>)
    ensures
        size_view(r) == size_of(utf8(value@)),
{
    let s = value.as_bytes();
    let n: usize = s.len();
    if n >= 2 && s[n - 2] == 0x70 && s[n - 1] == 0x78 {
        let number = vstd::slice::slice_subrange(s, 0, n - 2);
        assert(number@ =~= s@.take(n - 2));
        if is_size_number(number) {
            Some(LengthPercentage::Px(without_suffix(value, 2)))
        } else {
            None
        }
    } else if n >= 1 && s[n - 1] == 0x25 {
        let number = vstd::slice::slice_subrange(s, 0, n - 1);
        assert(number@ =~= s@.take(n - 1));
        if is_size_number(number) {
            Some(LengthPercentage::Percent(without_suffix(value, 1)))
        } else {
            None
        }
    } else if is_size_number(s) {
        Some(LengthPercentage::Px(value.to_owned()))
    } else {
        None
    }
}

/// The declaration that one attribute stands for, if it stands for one.
pub fn hint_for(attr: &Attribute) -> (r: Option<PresentationalHint>)
    ensures
        match r {
            Some(hint) => hint_of(attr.name@, attr.value@) == Some(hint@),
            None => hint_of(attr.name@, attr.value@) is None,
        },
{
    let name = attr.name.as_str();
    let value = attr.value.as_str();
    if str_eq(name, "align") {
        match parse_align_attr(value) {
            Some(keyword) => Some(PresentationalHint::TextAlign(keyword)),
            None => None,
        }
    } else if str_eq(name, "width") {
        match parse_size_attr(value) {
            Some(size) => Some(PresentationalHint::Width(size)),
            None => None,
        }
    } else if str_eq(name, "height") {
        match parse_size_attr(value) {
            Some(size) => Some(PresentationalHint::Height(size)),
            None => None,
        }
    } else if str_eq(name, "bgcolor") {
        match parse_color_attr(value) {
            Some(color) => Some(PresentationalHint::BackgroundColor(color)),
            None => None,
        }
    } else {
        None
    }
}

impl<'a> Handle<'a> {
    /// Appends to `hints` the declarations that the presentation
    /// attributes of the element stand for, in the order of the
    /// attributes: `align` with one of `left`, `right` and `center`,
    /// `width` and `height` with a size, `bgcolor` with a colour. An
    /// attribute whose value cannot be read adds nothing, and neither does
    /// a node that is no element.
    pub fn synthesize_presentational_hints_for_legacy_attributes(&self, hints: &mut Vec<PresentationalHint>)
        ensures
            hint_views(final(hints)@) == hint_views(old(hints)@) + (match self.node.raw_dom_data.element() {
                Some(data) => hints_of(data.attrs@),
                None => Seq::empty(),
            }),
    {
        let ghost before = hint_views(hints@);
        let data = match self.node.element_data() {
            Some(data) => data,
            None => {
                assert(before =~= before + Seq::<HintView>::empty());
                return ;
            },
        };
        let count: usize = data.attrs.len();
        let mut i: usize = 0;
        assert(before =~= before + hints_of(data.attrs@.take(0)));
        while i < count
            invariant
                i <= count,
                count == data.attrs@.len(),
                hint_views(hints@) == before + hints_of(data.attrs@.take(i as int)),
            decreases count - i,
        {
            let ghost so_far = hints@;
            let ghost upto = data.attrs@.take(i + 1);
            assert(upto.drop_last() =~= data.attrs@.take(i as int));
            assert(upto.last() == data.attrs@[i as int]);
            match hint_for(&data.attrs[i]) {
                Some(hint) => {
                    let ghost view = hint@;
                    hints.push(hint);
                    assert(hint_views(hints@) =~= hint_views(so_far).push(view));
                    assert(hint_views(hints@) =~= before + hints_of(upto));
                },
                None => {},
            }
            i += 1;
        }
        assert(data.attrs@.take(count as int) =~= data.attrs@);
    }
}

} // verus!
