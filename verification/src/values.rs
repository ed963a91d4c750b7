//! The IPP attribute value model: a tagged variant covering every supported
//! value tag, self-referential through collections (nested attribute maps)
//! and vectors (the 1setOf additional-values convention).
use vstd::prelude::*;
use vstd::string::StringSliceAdditionalSpecFns;

use crate::error::IppError;
use crate::wire::{
    be16, be32i, copy_bytes, lemma_i32_u32_round_trip, lemma_i8_u8_round_trip, push_i32_be,
    push_u16_be, read_i32_be, read_u16_be, u16_of_be, u32_of_be,
};

verus! {

/// An attribute value as the caller sees it. String-typed tags hold UTF-8
/// text; `Collection` and `Vector` exist only in the decoded in-memory
/// model: on the wire a collection is a brace-matched member sequence and a
/// vector is a run of same-name attributes.
#[derive(Debug, PartialEq)]
pub enum AttributeValue {
    /// Opaque bytes of an out-of-model tag, preserved verbatim.
    Unsupported(Vec<u8>),
    /// Opaque bytes of the `unknown` tag, preserved verbatim.
    Unknown(Vec<u8>),
    /// The empty value; its wire length is always zero.
    NoValue,
    Integer(i32),
    Boolean(bool),
    Enum(i32),
    OctetStringUnspecified(String),
    DateTime {
        year: u16,
        month: u8,
        day: u8,
        hour: u8,
        minutes: u8,
        seconds: u8,
        deci_seconds: u8,
        /// ASCII `'+'` or `'-'`.
        direction_from_utc: u8,
        hours_from_utc: u8,
        minutes_from_utc: u8,
    },
    Resolution {
        cross_feed: i32,
        feed: i32,
        /// 3 for dots per inch, 4 for dots per centimetre.
        units: i8,
    },
    RangeOfInteger {
        low: i32,
        high: i32,
    },
    /// Sentinel opening a collection; zero-length payload on the wire.
    BegCollection,
    TextWithLanguage {
        language: String,
        text: String,
    },
    NameWithLanguage {
        language: String,
        name: String,
    },
    /// Sentinel closing a collection; zero-length payload on the wire.
    EndCollection,
    TextWithoutLanguage(String),
    NameWithoutLanguage(String),
    Keyword(String),
    Uri(String),
    UriScheme(String),
    Charset(String),
    NaturalLanguage(String),
    MimeMediaType(String),
    /// Carries a collection member's name as its value.
    MemberAttrName(String),
    /// A nested attribute map, keyed by member name, order preserved.
    Collection(Vec<(String, AttributeValue)>),
    /// An ordered run of values carried by one attribute name.
    Vector(Vec<AttributeValue>),
}

/// The mathematical shadow of [`AttributeValue`]: text as character
/// sequences, collections and vectors as sequences.
pub enum ValueView {
    Unsupported(Seq<u8>),
    Unknown(Seq<u8>),
    NoValue,
    Integer(i32),
    Boolean(bool),
    Enum(i32),
    OctetStringUnspecified(Seq<char>),
    DateTime {
        year: u16,
        month: u8,
        day: u8,
        hour: u8,
        minutes: u8,
        seconds: u8,
        deci_seconds: u8,
        direction_from_utc: u8,
        hours_from_utc: u8,
        minutes_from_utc: u8,
    },
    Resolution {
        cross_feed: i32,
        feed: i32,
        units: i8,
    },
    RangeOfInteger {
        low: i32,
        high: i32,
    },
    BegCollection,
    TextWithLanguage {
        language: Seq<char>,
        text: Seq<char>,
    },
    NameWithLanguage {
        language: Seq<char>,
        name: Seq<char>,
    },
    EndCollection,
    TextWithoutLanguage(Seq<char>),
    NameWithoutLanguage(Seq<char>),
    Keyword(Seq<char>),
    Uri(Seq<char>),
    UriScheme(Seq<char>),
    Charset(Seq<char>),
    NaturalLanguage(Seq<char>),
    MimeMediaType(Seq<char>),
    MemberAttrName(Seq<char>),
    Collection(Seq<(Seq<char>, ValueView)>),
    Vector(Seq<ValueView>),
}

impl View for AttributeValue {
    type V = ValueView;

    open spec fn view(&self) -> ValueView
        decreases self, 1int,
    {
        match self {
            AttributeValue::Unsupported(b) => ValueView::Unsupported(b@),
            AttributeValue::Unknown(b) => ValueView::Unknown(b@),
            AttributeValue::NoValue => ValueView::NoValue,
            AttributeValue::Integer(v) => ValueView::Integer(*v),
            AttributeValue::Boolean(v) => ValueView::Boolean(*v),
            AttributeValue::Enum(v) => ValueView::Enum(*v),
            AttributeValue::OctetStringUnspecified(s) => ValueView::OctetStringUnspecified(s@),
            AttributeValue::DateTime {
                year,
                month,
                day,
                hour,
                minutes,
                seconds,
                deci_seconds,
                direction_from_utc,
                hours_from_utc,
                minutes_from_utc,
            } => ValueView::DateTime {
                year: *year,
                month: *month,
                day: *day,
                hour: *hour,
                minutes: *minutes,
                seconds: *seconds,
                deci_seconds: *deci_seconds,
                direction_from_utc: *direction_from_utc,
                hours_from_utc: *hours_from_utc,
                minutes_from_utc: *minutes_from_utc,
            },
            AttributeValue::Resolution { cross_feed, feed, units } => ValueView::Resolution {
                cross_feed: *cross_feed,
                feed: *feed,
                units: *units,
            },
            AttributeValue::RangeOfInteger { low, high } => ValueView::RangeOfInteger {
                low: *low,
                high: *high,
            },
            AttributeValue::BegCollection => ValueView::BegCollection,
            AttributeValue::TextWithLanguage { language, text } => ValueView::TextWithLanguage {
                language: language@,
                text: text@,
            },
            AttributeValue::NameWithLanguage { language, name } => ValueView::NameWithLanguage {
                language: language@,
                name: name@,
            },
            AttributeValue::EndCollection => ValueView::EndCollection,
            AttributeValue::TextWithoutLanguage(s) => ValueView::TextWithoutLanguage(s@),
            AttributeValue::NameWithoutLanguage(s) => ValueView::NameWithoutLanguage(s@),
            AttributeValue::Keyword(s) => ValueView::Keyword(s@),
            AttributeValue::Uri(s) => ValueView::Uri(s@),
            AttributeValue::UriScheme(s) => ValueView::UriScheme(s@),
            AttributeValue::Charset(s) => ValueView::Charset(s@),
            AttributeValue::NaturalLanguage(s) => ValueView::NaturalLanguage(s@),
            AttributeValue::MimeMediaType(s) => ValueView::MimeMediaType(s@),
            AttributeValue::MemberAttrName(s) => ValueView::MemberAttrName(s@),
            AttributeValue::Collection(members) => ValueView::Collection(members_view(members@)),
            AttributeValue::Vector(vs) => ValueView::Vector(values_view(vs@)),
        }
    }
}

/// The view of a named attribute list: each name as its characters, each
/// value as its view.
pub open spec fn members_view(ms: Seq<(String, AttributeValue)>) -> Seq<(Seq<char>, ValueView)>
    decreases ms, 0int,
{
    Seq::new(
        ms.len(),
        |i: int|
            if 0 <= i < ms.len() {
                (ms[i].0@, ms[i].1@)
            } else {
                (Seq::empty(), ValueView::NoValue)
            },
    )
}

/// The view of a value list.
pub open spec fn values_view(vs: Seq<AttributeValue>) -> Seq<ValueView>
    decreases vs, 0int,
{
    Seq::new(
        vs.len(),
        |i: int|
            if 0 <= i < vs.len() {
                vs[i]@
            } else {
                ValueView::NoValue
            },
    )
}

/// The UTF-8 encoding of a character sequence.
pub open spec fn utf8(s: Seq<char>) -> Seq<u8> {
    vstd::utf8::encode_utf8(s)
}

/// The value tag of a primitive or sentinel view. A `Collection` is opened
/// on the wire by `begCollection`, so it shares that tag; a `Vector` carries
/// the tag of its elements and has none of its own.
pub open spec fn spec_value_tag(v: ValueView) -> u8 {
    match v {
        ValueView::Unsupported(_) => 0x10,
        ValueView::Unknown(_) => 0x12,
        ValueView::NoValue => 0x13,
        ValueView::Integer(_) => 0x21,
        ValueView::Boolean(_) => 0x22,
        ValueView::Enum(_) => 0x23,
        ValueView::OctetStringUnspecified(_) => 0x30,
        ValueView::DateTime { .. } => 0x31,
        ValueView::Resolution { .. } => 0x32,
        ValueView::RangeOfInteger { .. } => 0x33,
        ValueView::BegCollection => 0x34,
        ValueView::TextWithLanguage { .. } => 0x35,
        ValueView::NameWithLanguage { .. } => 0x36,
        ValueView::EndCollection => 0x37,
        ValueView::TextWithoutLanguage(_) => 0x41,
        ValueView::NameWithoutLanguage(_) => 0x42,
        ValueView::Keyword(_) => 0x44,
        ValueView::Uri(_) => 0x45,
        ValueView::UriScheme(_) => 0x46,
        ValueView::Charset(_) => 0x47,
        ValueView::NaturalLanguage(_) => 0x48,
        ValueView::MimeMediaType(_) => 0x49,
        ValueView::MemberAttrName(_) => 0x4A,
        ValueView::Collection(_) => 0x34,
        ValueView::Vector(_) => 0x34,
    }
}

/// The payload of a string-with-language value: each part is a 16-bit
/// big-endian length followed by that many UTF-8 bytes.
pub open spec fn swl_bytes(language: Seq<char>, text: Seq<char>) -> Seq<u8> {
    be16(utf8(language).len() as u16) + utf8(language) + be16(utf8(text).len() as u16) + utf8(text)
}

/// The wire payload of a primitive or sentinel view. Collections and
/// vectors have no payload of their own: their encodings are attribute
/// sequences, settled by flattening.
pub open spec fn spec_payload_bytes(v: ValueView) -> Seq<u8> {
    match v {
        ValueView::Unsupported(b) => b,
        ValueView::Unknown(b) => b,
        ValueView::NoValue => Seq::empty(),
        ValueView::Integer(x) => be32i(x),
        ValueView::Boolean(b) => seq![if b { 1u8 } else { 0u8 }],
        ValueView::Enum(x) => be32i(x),
        ValueView::OctetStringUnspecified(s) => utf8(s),
        ValueView::DateTime {
            year,
            month,
            day,
            hour,
            minutes,
            seconds,
            deci_seconds,
            direction_from_utc,
            hours_from_utc,
            minutes_from_utc,
        } => be16(year) + seq![
            month,
            day,
            hour,
            minutes,
            seconds,
            deci_seconds,
            direction_from_utc,
            hours_from_utc,
            minutes_from_utc,
        ],
        ValueView::Resolution { cross_feed, feed, units } => be32i(cross_feed) + be32i(feed)
            + seq![units as u8],
        ValueView::RangeOfInteger { low, high } => be32i(low) + be32i(high),
        ValueView::BegCollection => Seq::empty(),
        ValueView::TextWithLanguage { language, text } => swl_bytes(language, text),
        ValueView::NameWithLanguage { language, name } => swl_bytes(language, name),
        ValueView::EndCollection => Seq::empty(),
        ValueView::TextWithoutLanguage(s) => utf8(s),
        ValueView::NameWithoutLanguage(s) => utf8(s),
        ValueView::Keyword(s) => utf8(s),
        ValueView::Uri(s) => utf8(s),
        ValueView::UriScheme(s) => utf8(s),
        ValueView::Charset(s) => utf8(s),
        ValueView::NaturalLanguage(s) => utf8(s),
        ValueView::MimeMediaType(s) => utf8(s),
        ValueView::MemberAttrName(s) => utf8(s),
        ValueView::Collection(_) => Seq::empty(),
        ValueView::Vector(_) => Seq::empty(),
    }
}

/// Whether a primitive or sentinel view conforms to the wire limits: every
/// payload fits the signed 16-bit length field (the sign bit is reserved
/// zero, so 32767 bytes at most), and a date-time's direction byte is ASCII
/// `'+'` or `'-'`. Collections and vectors are not primitives.
pub open spec fn prim_ok(v: ValueView) -> bool {
    match v {
        ValueView::Unsupported(b) => b.len() <= 32767,
        ValueView::Unknown(b) => b.len() <= 32767,
        ValueView::NoValue => true,
        ValueView::Integer(_) => true,
        ValueView::Boolean(_) => true,
        ValueView::Enum(_) => true,
        ValueView::OctetStringUnspecified(s) => utf8(s).len() <= 32767,
        ValueView::DateTime { direction_from_utc, .. } => direction_from_utc == 0x2Bu8
            || direction_from_utc == 0x2Du8,
        ValueView::Resolution { .. } => true,
        ValueView::RangeOfInteger { .. } => true,
        ValueView::BegCollection => true,
        ValueView::TextWithLanguage { language, text } => 4 + utf8(language).len() + utf8(
            text,
        ).len() <= 32767,
        ValueView::NameWithLanguage { language, name } => 4 + utf8(language).len() + utf8(
            name,
        ).len() <= 32767,
        ValueView::EndCollection => true,
        ValueView::TextWithoutLanguage(s) => utf8(s).len() <= 32767,
        ValueView::NameWithoutLanguage(s) => utf8(s).len() <= 32767,
        ValueView::Keyword(s) => utf8(s).len() <= 32767,
        ValueView::Uri(s) => utf8(s).len() <= 32767,
        ValueView::UriScheme(s) => utf8(s).len() <= 32767,
        ValueView::Charset(s) => utf8(s).len() <= 32767,
        ValueView::NaturalLanguage(s) => utf8(s).len() <= 32767,
        ValueView::MimeMediaType(s) => utf8(s).len() <= 32767,
        ValueView::MemberAttrName(s) => utf8(s).len() <= 32767,
        ValueView::Collection(_) => false,
        ValueView::Vector(_) => false,
    }
}

/// The signed 32-bit big-endian field at offset `i` of a payload.
pub open spec fn i32_in(b: Seq<u8>, i: int) -> i32 {
    u32_of_be(b[i], b[i + 1], b[i + 2], b[i + 3]) as i32
}

/// What the primitive decoder yields for one value payload, dispatched on
/// the value tag. Fixed-shape values must have their exact length and a
/// boolean byte must be 0 or 1 (protocol errors otherwise); text must be
/// valid UTF-8, a string-with-language's inner lengths must sum to the
/// payload length, and a date-time's direction byte must be `'+'` or `'-'`
/// (value-format errors otherwise). An unregistered tag is a protocol
/// error.
pub open spec fn spec_decode_value(tag: u8, b: Seq<u8>) -> Result<ValueView, IppError> {
    if tag == 0x10 {
        Ok(ValueView::Unsupported(b))
    } else if tag == 0x12 {
        Ok(ValueView::Unknown(b))
    } else if tag == 0x13 {
        if b.len() == 0 {
            Ok(ValueView::NoValue)
        } else {
            Err(IppError::Protocol)
        }
    } else if tag == 0x21 || tag == 0x23 {
        if b.len() != 4 {
            Err(IppError::Protocol)
        } else if tag == 0x21 {
            Ok(ValueView::Integer(i32_in(b, 0)))
        } else {
            Ok(ValueView::Enum(i32_in(b, 0)))
        }
    } else if tag == 0x22 {
        if b.len() != 1 {
            Err(IppError::Protocol)
        } else if b[0] == 0 {
            Ok(ValueView::Boolean(false))
        } else if b[0] == 1 {
            Ok(ValueView::Boolean(true))
        } else {
            Err(IppError::Protocol)
        }
    } else if tag == 0x31 {
        if b.len() != 11 {
            Err(IppError::Protocol)
        } else if b[8] != 0x2B && b[8] != 0x2D {
            Err(IppError::ValueFormat)
        } else {
            Ok(
                ValueView::DateTime {
                    year: u16_of_be(b[0], b[1]),
                    month: b[2],
                    day: b[3],
                    hour: b[4],
                    minutes: b[5],
                    seconds: b[6],
                    deci_seconds: b[7],
                    direction_from_utc: b[8],
                    hours_from_utc: b[9],
                    minutes_from_utc: b[10],
                },
            )
        }
    } else if tag == 0x32 {
        if b.len() != 9 {
            Err(IppError::Protocol)
        } else {
            Ok(
                ValueView::Resolution {
                    cross_feed: i32_in(b, 0),
                    feed: i32_in(b, 4),
                    units: b[8] as i8,
                },
            )
        }
    } else if tag == 0x33 {
        if b.len() != 8 {
            Err(IppError::Protocol)
        } else {
            Ok(ValueView::RangeOfInteger { low: i32_in(b, 0), high: i32_in(b, 4) })
        }
    } else if tag == 0x34 {
        if b.len() == 0 {
            Ok(ValueView::BegCollection)
        } else {
            Err(IppError::Protocol)
        }
    } else if tag == 0x37 {
        if b.len() == 0 {
            Ok(ValueView::EndCollection)
        } else {
            Err(IppError::Protocol)
        }
    } else if tag == 0x35 || tag == 0x36 {
        spec_decode_swl(tag, b)
    } else if tag == 0x30 || tag == 0x41 || tag == 0x42 || tag == 0x44 || tag == 0x45 || tag == 0x46
        || tag == 0x47 || tag == 0x48 || tag == 0x49 || tag == 0x4A {
        if vstd::utf8::valid_utf8(b) {
            Ok(string_view(tag, vstd::utf8::decode_utf8(b)))
        } else {
            Err(IppError::ValueFormat)
        }
    } else {
        Err(IppError::Protocol)
    }
}

/// The view a string-typed tag wraps its text in.
pub open spec fn string_view(tag: u8, s: Seq<char>) -> ValueView {
    if tag == 0x30 {
        ValueView::OctetStringUnspecified(s)
    } else if tag == 0x41 {
        ValueView::TextWithoutLanguage(s)
    } else if tag == 0x42 {
        ValueView::NameWithoutLanguage(s)
    } else if tag == 0x44 {
        ValueView::Keyword(s)
    } else if tag == 0x45 {
        ValueView::Uri(s)
    } else if tag == 0x46 {
        ValueView::UriScheme(s)
    } else if tag == 0x47 {
        ValueView::Charset(s)
    } else if tag == 0x48 {
        ValueView::NaturalLanguage(s)
    } else if tag == 0x49 {
        ValueView::MimeMediaType(s)
    } else {
        ValueView::MemberAttrName(s)
    }
}

/// Parsing a string-with-language payload: both inner parts are length
/// prefixed, the lengths must sum to the payload length exactly, and both
/// parts must be valid UTF-8.
pub open spec fn spec_decode_swl(tag: u8, b: Seq<u8>) -> Result<ValueView, IppError> {
    if b.len() < 4 {
        Err(IppError::ValueFormat)
    } else {
        let lang_len = u16_of_be(b[0], b[1]) as int;
        if 2 + lang_len + 2 > b.len() {
            Err(IppError::ValueFormat)
        } else {
            let text_len = u16_of_be(b[2 + lang_len], b[2 + lang_len + 1]) as int;
            if 2 + lang_len + 2 + text_len != b.len() {
                Err(IppError::ValueFormat)
            } else {
                let lang_bytes = b.subrange(2, 2 + lang_len);
                let text_bytes = b.subrange(2 + lang_len + 2, b.len() as int);
                if !vstd::utf8::valid_utf8(lang_bytes) || !vstd::utf8::valid_utf8(text_bytes) {
                    Err(IppError::ValueFormat)
                } else {
                    let language = vstd::utf8::decode_utf8(lang_bytes);
                    let text = vstd::utf8::decode_utf8(text_bytes);
                    if tag == 0x35 {
                        Ok(ValueView::TextWithLanguage { language, text })
                    } else {
                        Ok(ValueView::NameWithLanguage { language, name: text })
                    }
                }
            }
        }
    }
}

/// Relies on `String::from_utf8`: returns the string whose UTF-8 encoding
/// is exactly the given bytes, and fails exactly on bytes that are not
/// valid UTF-8.
#[verifier::external_body]
pub(crate) fn string_from_utf8(v: Vec<u8>) -> (r: Option<String>)
    ensures
        r is Some <==> vstd::utf8::valid_utf8(v@),
        r is Some ==> r.unwrap()@ == vstd::utf8::decode_utf8(v@),
{
    String::from_utf8(v).ok()
}

/// The UTF-8 byte length of a string.
pub fn str_byte_len(s: &str) -> (n: usize)
    ensures
        n == utf8(s@).len(),
{
    let b: &[u8] = s.as_bytes();
    let n = b.len();
    proof {
        vstd::slice::axiom_spec_len(b);
    }
    n
}

/// Append the UTF-8 bytes of a string.
pub fn push_str_bytes(out: &mut Vec<u8>, s: &str)
    ensures
        final(out)@ == old(out)@ + s.spec_bytes(),
{
    let ghost out0 = out@;
    let b: &[u8] = s.as_bytes();
    let n = b.len();
    let mut k: usize = 0;
    while k < n
        invariant
            k <= n,
            n == b@.len(),
            out@ == out0 + b@.subrange(0, k as int),
        decreases n - k,
    {
        let byte = b[k];
        out.push(byte);
        proof {
            assert(out@ =~= out0 + b@.subrange(0, k as int + 1));
        }
        k = k + 1;
    }
    proof {
        assert(b@.subrange(0, b@.len() as int) =~= b@);
    }
}

/// Decoding a primitive's own payload yields the value back.
pub proof fn lemma_prim_round_trip(v: ValueView)
    requires
        prim_ok(v),
    ensures
        spec_decode_value(spec_value_tag(v), spec_payload_bytes(v)) == Ok::<
            ValueView,
            IppError,
        >(v),
{
    let tag = spec_value_tag(v);
    let b = spec_payload_bytes(v);
    match v {
        ValueView::Integer(x) => {
            crate::wire::lemma_be32_round_trip(x as u32);
            lemma_i32_u32_round_trip(x);
        },
        ValueView::Enum(x) => {
            crate::wire::lemma_be32_round_trip(x as u32);
            lemma_i32_u32_round_trip(x);
        },
        ValueView::Resolution { cross_feed, feed, units } => {
            crate::wire::lemma_be32_round_trip(cross_feed as u32);
            crate::wire::lemma_be32_round_trip(feed as u32);
            lemma_i32_u32_round_trip(cross_feed);
            lemma_i32_u32_round_trip(feed);
            lemma_i8_u8_round_trip(units);
            assert(b.len() == 9);
            assert(b.subrange(0, 4) =~= be32i(cross_feed));
            assert(i32_in(b, 0) == cross_feed);
            assert(i32_in(b, 4) == feed);
            assert(b[8] == units as u8);
        },
        ValueView::RangeOfInteger { low, high } => {
            crate::wire::lemma_be32_round_trip(low as u32);
            crate::wire::lemma_be32_round_trip(high as u32);
            lemma_i32_u32_round_trip(low);
            lemma_i32_u32_round_trip(high);
            assert(i32_in(b, 0) == low);
            assert(i32_in(b, 4) == high);
        },
        ValueView::DateTime { year, .. } => {
            crate::wire::lemma_be16_round_trip(year);
            assert(b.len() == 11);
            assert(u16_of_be(b[0], b[1]) == year);
        },
        ValueView::OctetStringUnspecified(s) => {
            lemma_utf8_round_trip(s);
        },
        ValueView::TextWithoutLanguage(s) => {
            lemma_utf8_round_trip(s);
        },
        ValueView::NameWithoutLanguage(s) => {
            lemma_utf8_round_trip(s);
        },
        ValueView::Keyword(s) => {
            lemma_utf8_round_trip(s);
        },
        ValueView::Uri(s) => {
            lemma_utf8_round_trip(s);
        },
        ValueView::UriScheme(s) => {
            lemma_utf8_round_trip(s);
        },
        ValueView::Charset(s) => {
            lemma_utf8_round_trip(s);
        },
        ValueView::NaturalLanguage(s) => {
            lemma_utf8_round_trip(s);
        },
        ValueView::MimeMediaType(s) => {
            lemma_utf8_round_trip(s);
        },
        ValueView::MemberAttrName(s) => {
            lemma_utf8_round_trip(s);
        },
        ValueView::TextWithLanguage { language, text } => {
            lemma_swl_round_trip(language, text);
        },
        ValueView::NameWithLanguage { language, name } => {
            lemma_swl_round_trip(language, name);
        },
        _ => {},
    }
}

/// UTF-8 encoding is left-invertible: the encoded bytes are valid and
/// decode to the characters encoded.
pub proof fn lemma_utf8_round_trip(s: Seq<char>)
    ensures
        vstd::utf8::valid_utf8(utf8(s)),
        vstd::utf8::decode_utf8(utf8(s)) == s,
{
    vstd::utf8::encode_utf8_valid_utf8(s);
    vstd::utf8::encode_utf8_decode_utf8(s);
}

/// Parsing a string-with-language payload built from two conforming parts
/// yields the parts back.
proof fn lemma_swl_round_trip(language: Seq<char>, text: Seq<char>)
    requires
        4 + utf8(language).len() + utf8(text).len() <= 32767,
    ensures
        spec_decode_swl(0x35, swl_bytes(language, text)) == Ok::<ValueView, IppError>(
            ValueView::TextWithLanguage { language, text },
        ),
        spec_decode_swl(0x36, swl_bytes(language, text)) == Ok::<ValueView, IppError>(
            ValueView::NameWithLanguage { language, name: text },
        ),
{
    let ll = utf8(language).len() as int;
    let tl = utf8(text).len() as int;
    let b = swl_bytes(language, text);
    crate::wire::lemma_be16_round_trip(ll as u16);
    crate::wire::lemma_be16_round_trip(tl as u16);
    assert(b.len() == 4 + ll + tl);
    assert(b[0] == be16(ll as u16)[0] && b[1] == be16(ll as u16)[1]);
    assert(u16_of_be(b[0], b[1]) as int == ll);
    assert(b[2 + ll] == be16(tl as u16)[0] && b[2 + ll + 1] == be16(tl as u16)[1]);
    assert(u16_of_be(b[2 + ll], b[2 + ll + 1]) as int == tl);
    assert(b.subrange(2, 2 + ll) =~= utf8(language));
    assert(b.subrange(2 + ll + 2, b.len() as int) =~= utf8(text));
    lemma_utf8_round_trip(language);
    lemma_utf8_round_trip(text);
}

impl AttributeValue {
    /// The value tag of this value.
    pub fn value_tag(&self) -> (t: u8)
        ensures
            t == spec_value_tag(self@),
    {
        match self {
            AttributeValue::Unsupported(_) => 0x10,
            AttributeValue::Unknown(_) => 0x12,
            AttributeValue::NoValue => 0x13,
            AttributeValue::Integer(_) => 0x21,
            AttributeValue::Boolean(_) => 0x22,
            AttributeValue::Enum(_) => 0x23,
            AttributeValue::OctetStringUnspecified(_) => 0x30,
            AttributeValue::DateTime { .. } => 0x31,
            AttributeValue::Resolution { .. } => 0x32,
            AttributeValue::RangeOfInteger { .. } => 0x33,
            AttributeValue::BegCollection => 0x34,
            AttributeValue::TextWithLanguage { .. } => 0x35,
            AttributeValue::NameWithLanguage { .. } => 0x36,
            AttributeValue::EndCollection => 0x37,
            AttributeValue::TextWithoutLanguage(_) => 0x41,
            AttributeValue::NameWithoutLanguage(_) => 0x42,
            AttributeValue::Keyword(_) => 0x44,
            AttributeValue::Uri(_) => 0x45,
            AttributeValue::UriScheme(_) => 0x46,
            AttributeValue::Charset(_) => 0x47,
            AttributeValue::NaturalLanguage(_) => 0x48,
            AttributeValue::MimeMediaType(_) => 0x49,
            AttributeValue::MemberAttrName(_) => 0x4A,
            AttributeValue::Collection(_) => 0x34,
            AttributeValue::Vector(_) => 0x34,
        }
    }

    /// Append this primitive's wire payload to `out`.
    pub fn encode_payload(&self, out: &mut Vec<u8>)
        requires
            prim_ok(self@),
        ensures
            final(out)@ == old(out)@ + spec_payload_bytes(self@),
    {
        let ghost out0 = out@;
        match self {
            AttributeValue::Unsupported(b) => {
                crate::wire::push_bytes(out, b);
            },
            AttributeValue::Unknown(b) => {
                crate::wire::push_bytes(out, b);
            },
            AttributeValue::NoValue => {},
            AttributeValue::Integer(x) => {
                push_i32_be(out, *x);
            },
            AttributeValue::Boolean(v) => {
                out.push(if *v { 1u8 } else { 0u8 });
                proof {
                    assert(out@ =~= out0 + spec_payload_bytes(self@));
                }
            },
            AttributeValue::Enum(x) => {
                push_i32_be(out, *x);
            },
            AttributeValue::OctetStringUnspecified(s) => {
                push_str_bytes(out, s.as_str());
            },
            AttributeValue::DateTime {
                year,
                month,
                day,
                hour,
                minutes,
                seconds,
                deci_seconds,
                direction_from_utc,
                hours_from_utc,
                minutes_from_utc,
            } => {
                push_u16_be(out, *year);
                out.push(*month);
                out.push(*day);
                out.push(*hour);
                out.push(*minutes);
                out.push(*seconds);
                out.push(*deci_seconds);
                out.push(*direction_from_utc);
                out.push(*hours_from_utc);
                out.push(*minutes_from_utc);
                proof {
                    assert(out@ =~= out0 + spec_payload_bytes(self@));
                }
            },
            AttributeValue::Resolution { cross_feed, feed, units } => {
                push_i32_be(out, *cross_feed);
                push_i32_be(out, *feed);
                out.push(*units as u8);
                proof {
                    assert(out@ =~= out0 + spec_payload_bytes(self@));
                }
            },
            AttributeValue::RangeOfInteger { low, high } => {
                push_i32_be(out, *low);
                push_i32_be(out, *high);
                proof {
                    assert(out@ =~= out0 + spec_payload_bytes(self@));
                }
            },
            AttributeValue::BegCollection => {},
            AttributeValue::TextWithLanguage { language, text } => {
                Self::encode_swl(out, language, text);
            },
            AttributeValue::NameWithLanguage { language, name } => {
                Self::encode_swl(out, language, name);
            },
            AttributeValue::EndCollection => {},
            AttributeValue::TextWithoutLanguage(s) => {
                push_str_bytes(out, s.as_str());
            },
            AttributeValue::NameWithoutLanguage(s) => {
                push_str_bytes(out, s.as_str());
            },
            AttributeValue::Keyword(s) => {
                push_str_bytes(out, s.as_str());
            },
            AttributeValue::Uri(s) => {
                push_str_bytes(out, s.as_str());
            },
            AttributeValue::UriScheme(s) => {
                push_str_bytes(out, s.as_str());
            },
            AttributeValue::Charset(s) => {
                push_str_bytes(out, s.as_str());
            },
            AttributeValue::NaturalLanguage(s) => {
                push_str_bytes(out, s.as_str());
            },
            AttributeValue::MimeMediaType(s) => {
                push_str_bytes(out, s.as_str());
            },
            AttributeValue::MemberAttrName(s) => {
                push_str_bytes(out, s.as_str());
            },
            AttributeValue::Collection(_) => {},
            AttributeValue::Vector(_) => {},
        }
    }

    /// Decode one value payload, dispatched on its value tag, exactly as
    /// [`spec_decode_value`] describes.
    pub fn decode_value(tag: u8, payload: Vec<u8>) -> (r: Result<AttributeValue, IppError>)
        ensures
            (match r {
                Ok(v) => spec_decode_value(tag, payload@) matches Ok(sv) && v@ == sv,
                Err(e) => spec_decode_value(tag, payload@) == Err::<ValueView, IppError>(e),
            }),
    {
        let n = payload.len();
        if tag == 0x10 {
            Ok(AttributeValue::Unsupported(payload))
        } else if tag == 0x12 {
            Ok(AttributeValue::Unknown(payload))
        } else if tag == 0x13 {
            if n == 0 {
                Ok(AttributeValue::NoValue)
            } else {
                Err(IppError::Protocol)
            }
        } else if tag == 0x21 || tag == 0x23 {
            if n != 4 {
                Err(IppError::Protocol)
            } else {
                let x = read_i32_be(&payload, 0);
                if tag == 0x21 {
                    Ok(AttributeValue::Integer(x))
                } else {
                    Ok(AttributeValue::Enum(x))
                }
            }
        } else if tag == 0x22 {
            if n != 1 {
                Err(IppError::Protocol)
            } else if payload[0] == 0 {
                Ok(AttributeValue::Boolean(false))
            } else if payload[0] == 1 {
                Ok(AttributeValue::Boolean(true))
            } else {
                Err(IppError::Protocol)
            }
        } else if tag == 0x31 {
            if n != 11 {
                Err(IppError::Protocol)
            } else if payload[8] != 0x2B && payload[8] != 0x2D {
                Err(IppError::ValueFormat)
            } else {
                Ok(
                    AttributeValue::DateTime {
                        year: read_u16_be(&payload, 0),
                        month: payload[2],
                        day: payload[3],
                        hour: payload[4],
                        minutes: payload[5],
                        seconds: payload[6],
                        deci_seconds: payload[7],
                        direction_from_utc: payload[8],
                        hours_from_utc: payload[9],
                        minutes_from_utc: payload[10],
                    },
                )
            }
        } else if tag == 0x32 {
            if n != 9 {
                Err(IppError::Protocol)
            } else {
                Ok(
                    AttributeValue::Resolution {
                        cross_feed: read_i32_be(&payload, 0),
                        feed: read_i32_be(&payload, 4),
                        units: payload[8] as i8,
                    },
                )
            }
        } else if tag == 0x33 {
            if n != 8 {
                Err(IppError::Protocol)
            } else {
                Ok(
                    AttributeValue::RangeOfInteger {
                        low: read_i32_be(&payload, 0),
                        high: read_i32_be(&payload, 4),
                    },
                )
            }
        } else if tag == 0x34 {
            if n == 0 {
                Ok(AttributeValue::BegCollection)
            } else {
                Err(IppError::Protocol)
            }
        } else if tag == 0x37 {
            if n == 0 {
                Ok(AttributeValue::EndCollection)
            } else {
                Err(IppError::Protocol)
            }
        } else if tag == 0x35 || tag == 0x36 {
            Self::decode_swl(tag, payload)
        } else if tag == 0x30 || tag == 0x41 || tag == 0x42 || tag == 0x44 || tag == 0x45 || tag
            == 0x46 || tag == 0x47 || tag == 0x48 || tag == 0x49 || tag == 0x4A {
            match string_from_utf8(payload) {
                Some(s) => {
                    if tag == 0x30 {
                        Ok(AttributeValue::OctetStringUnspecified(s))
                    } else if tag == 0x41 {
                        Ok(AttributeValue::TextWithoutLanguage(s))
                    } else if tag == 0x42 {
                        Ok(AttributeValue::NameWithoutLanguage(s))
                    } else if tag == 0x44 {
                        Ok(AttributeValue::Keyword(s))
                    } else if tag == 0x45 {
                        Ok(AttributeValue::Uri(s))
                    } else if tag == 0x46 {
                        Ok(AttributeValue::UriScheme(s))
                    } else if tag == 0x47 {
                        Ok(AttributeValue::Charset(s))
                    } else if tag == 0x48 {
                        Ok(AttributeValue::NaturalLanguage(s))
                    } else if tag == 0x49 {
                        Ok(AttributeValue::MimeMediaType(s))
                    } else {
                        Ok(AttributeValue::MemberAttrName(s))
                    }
                },
                None => Err(IppError::ValueFormat),
            }
        } else {
            Err(IppError::Protocol)
        }
    }

    /// Decode a string-with-language payload.
    fn decode_swl(tag: u8, payload: Vec<u8>) -> (r: Result<AttributeValue, IppError>)
        requires
            tag == 0x35 || tag == 0x36,
        ensures
            (match r {
                Ok(v) => spec_decode_swl(tag, payload@) matches Ok(sv) && v@ == sv,
                Err(e) => spec_decode_swl(tag, payload@) == Err::<ValueView, IppError>(e),
            }),
    {
        let n = payload.len();
        if n < 4 {
            return Err(IppError::ValueFormat);
        }
        let ll = read_u16_be(&payload, 0) as usize;
        if ll > n || 2 + ll + 2 > n {
            return Err(IppError::ValueFormat);
        }
        let tl = read_u16_be(&payload, 2 + ll) as usize;
        if 2 + ll + 2 + tl != n {
            return Err(IppError::ValueFormat);
        }
        let lang_bytes = copy_bytes(&payload, 2, ll);
        let text_bytes = copy_bytes(&payload, 2 + ll + 2, tl);
        let language = match string_from_utf8(lang_bytes) {
            Some(s) => s,
            None => {
                return Err(IppError::ValueFormat);
            },
        };
        let text = match string_from_utf8(text_bytes) {
            Some(s) => s,
            None => {
                return Err(IppError::ValueFormat);
            },
        };
        if tag == 0x35 {
            Ok(AttributeValue::TextWithLanguage { language, text })
        } else {
            Ok(AttributeValue::NameWithLanguage { language, name: text })
        }
    }

    /// Append a string-with-language payload: both parts length-prefixed.
    fn encode_swl(out: &mut Vec<u8>, language: &String, text: &String)
        requires
            4 + utf8(language@).len() + utf8(text@).len() <= 32767,
        ensures
            final(out)@ == old(out)@ + swl_bytes(language@, text@),
    {
        let ghost out0 = out@;
        let ll = language.as_str().len();
        push_u16_be(out, ll as u16);
        push_str_bytes(out, language.as_str());
        let tl = text.as_str().len();
        push_u16_be(out, tl as u16);
        push_str_bytes(out, text.as_str());
        proof {
            assert(out@ =~= out0 + swl_bytes(language@, text@));
        }
    }
}

} // verus!
