//! The IPP attribute and message codec.
//!
//! One attribute travels as `[value-tag][name-length i16-be][name]
//! [value-length i16-be][value]`. A logical attribute flattens to a run of
//! such raw attributes: a vector as the additional-values convention (first
//! entry named, the rest empty-named), a collection as `begCollection`, a
//! run of `memberAttrName`/value pairs, and `endCollection`. Decoding runs
//! the raw attributes of one group through a structuring pass that rebuilds
//! nested collections, then coalesces additional-values runs back into
//! vectors.
use vstd::prelude::*;
use vstd::string::StringSliceAdditionalSpecFns;

use crate::error::IppError;
use crate::tags::{spec_is_delimiter, tag_code, DelimiterOrValueTag};
use crate::values::{
    members_view, prim_ok, push_str_bytes, spec_payload_bytes, spec_value_tag, str_byte_len, utf8,
    values_view, AttributeValue, ValueView,
};
use crate::wire::{be16, push_bytes, push_u16_be};

verus! {

/// One attribute as it travels: a name and a primitive (or sentinel) value.
pub struct RawView {
    pub name: Seq<char>,
    pub value: ValueView,
}

/// A raw attribute that conforms to the wire limits.
pub open spec fn raw_ok(a: RawView) -> bool {
    utf8(a.name).len() <= 32767 && prim_ok(a.value)
}

/// The wire bytes of one raw attribute.
pub open spec fn spec_raw_bytes(a: RawView) -> Seq<u8> {
    seq![spec_value_tag(a.value)] + be16(utf8(a.name).len() as u16) + utf8(a.name) + be16(
        spec_payload_bytes(a.value).len() as u16,
    ) + spec_payload_bytes(a.value)
}

/// The wire bytes of a run of raw attributes, from position `i` on.
pub open spec fn raws_bytes(rs: Seq<RawView>, i: int) -> Seq<u8>
    decreases rs.len() - i,
{
    if i < 0 || i >= rs.len() {
        Seq::empty()
    } else {
        spec_raw_bytes(rs[i]) + raws_bytes(rs, i + 1)
    }
}

/// The flattening of one logical attribute into raw attributes.
pub open spec fn flatten_attr(name: Seq<char>, v: ValueView) -> Seq<RawView>
    decreases v, 0int,
{
    match v {
        ValueView::Collection(members) => seq![
            RawView { name, value: ValueView::BegCollection },
        ] + flatten_members(members, 0) + seq![
            RawView { name: Seq::empty(), value: ValueView::EndCollection },
        ],
        ValueView::Vector(vs) => flatten_vector(name, vs, 0),
        _ => seq![RawView { name, value: v }],
    }
}

/// The flattening of a collection's members from index `i` on: each member
/// is a `memberAttrName` raw attribute carrying the member's name, followed
/// by the member's value flattened under an empty name.
pub open spec fn flatten_members(members: Seq<(Seq<char>, ValueView)>, i: int) -> Seq<RawView>
    decreases members, members.len() - i, 1int,
{
    if i < 0 || i >= members.len() {
        Seq::empty()
    } else {
        seq![
            RawView { name: Seq::empty(), value: ValueView::MemberAttrName(members[i].0) },
        ] + flatten_attr(Seq::empty(), members[i].1) + flatten_members(members, i + 1)
    }
}

/// The flattening of a vector from index `i` on: the first element carries
/// the attribute name, later elements carry the empty name.
pub open spec fn flatten_vector(name: Seq<char>, vs: Seq<ValueView>, i: int) -> Seq<RawView>
    decreases vs, vs.len() - i, 1int,
{
    if i < 0 || i >= vs.len() {
        Seq::empty()
    } else {
        flatten_attr(
            if i == 0 {
                name
            } else {
                Seq::empty()
            },
            vs[i],
        ) + flatten_vector(name, vs, i + 1)
    }
}

/// A value that may stand inside a collection or vector: a conforming
/// primitive, or a nested collection of such values. Sentinels and nested
/// vectors cannot.
pub open spec fn inner_value_ok(v: ValueView) -> bool
    decreases v, 0int,
{
    match v {
        ValueView::Collection(members) => members_ok(members, 0),
        ValueView::Vector(_) => false,
        ValueView::BegCollection => false,
        ValueView::EndCollection => false,
        ValueView::MemberAttrName(_) => false,
        _ => prim_ok(v),
    }
}

/// Every member from `i` on has a name within the wire limit and a value
/// that may stand inside a collection.
pub open spec fn members_ok(members: Seq<(Seq<char>, ValueView)>, i: int) -> bool
    decreases members, members.len() - i, 1int,
{
    if i < 0 || i >= members.len() {
        true
    } else {
        utf8(members[i].0).len() <= 32767 && inner_value_ok(members[i].1) && members_ok(
            members,
            i + 1,
        )
    }
}

/// Every vector element from `i` on may stand inside a vector.
pub open spec fn vector_ok(vs: Seq<ValueView>, i: int) -> bool
    decreases vs, vs.len() - i, 1int,
{
    if i < 0 || i >= vs.len() {
        true
    } else {
        inner_value_ok(vs[i]) && vector_ok(vs, i + 1)
    }
}

/// A conforming attribute of a group: a non-empty name within the wire
/// limit, and a value that is a conforming primitive, a collection, or a
/// vector of at least two elements. Sentinel values cannot be supplied as
/// attribute values.
pub open spec fn attr_ok(name: Seq<char>, v: ValueView) -> bool {
    &&& name.len() >= 1
    &&& utf8(name).len() <= 32767
    &&& match v {
        ValueView::Collection(members) => members_ok(members, 0),
        ValueView::Vector(vs) => vs.len() >= 2 && vector_ok(vs, 0),
        ValueView::BegCollection => false,
        ValueView::EndCollection => false,
        ValueView::MemberAttrName(_) => false,
        _ => prim_ok(v),
    }
}

/// Serialising from index `i` is serialising the `skip(i)` suffix.
pub proof fn lemma_raws_bytes_skip(rs: Seq<RawView>, i: int)
    requires
        0 <= i <= rs.len(),
    ensures
        raws_bytes(rs, i) == raws_bytes(rs.skip(i), 0),
    decreases rs.len() - i,
{
    if i < rs.len() {
        assert(rs.skip(i)[0] == rs[i]);
        lemma_raws_bytes_skip(rs, i + 1);
        lemma_raws_bytes_skip(rs.skip(i), 1);
        assert(rs.skip(i + 1) =~= rs.skip(i).skip(1));
    } else {
        assert(rs.skip(i).len() == 0);
    }
}

/// Serialising concatenated runs is concatenating their serialisations.
pub proof fn lemma_raws_bytes_concat(xs: Seq<RawView>, ys: Seq<RawView>)
    ensures
        raws_bytes(xs + ys, 0) == raws_bytes(xs, 0) + raws_bytes(ys, 0),
    decreases xs.len(),
{
    if xs.len() == 0 {
        assert(xs + ys =~= ys);
        assert(raws_bytes(xs, 0) + raws_bytes(ys, 0) =~= raws_bytes(ys, 0));
    } else {
        assert((xs + ys)[0] == xs[0]);
        lemma_raws_bytes_skip(xs + ys, 1);
        lemma_raws_bytes_skip(xs, 1);
        assert((xs + ys).skip(1) =~= xs.skip(1) + ys);
        lemma_raws_bytes_concat(xs.skip(1), ys);
        assert(spec_raw_bytes(xs[0]) + (raws_bytes(xs.skip(1), 0) + raws_bytes(ys, 0)) =~= (
        spec_raw_bytes(xs[0]) + raws_bytes(xs.skip(1), 0)) + raws_bytes(ys, 0));
    }
}

/// The serialisation of a single raw attribute.
pub proof fn lemma_raws_bytes_one(a: RawView)
    ensures
        raws_bytes(seq![a], 0) == spec_raw_bytes(a),
{
    assert(raws_bytes(seq![a], 1) == Seq::<u8>::empty());
    assert(spec_raw_bytes(a) + Seq::<u8>::empty() =~= spec_raw_bytes(a));
}

/// A value fit for the inside of a collection is encodable.
pub proof fn lemma_inner_encodable(v: ValueView)
    requires
        inner_value_ok(v),
    ensures
        encodable_value(v),
{
}

/// A conforming primitive's payload fits the 16-bit length field.
pub proof fn lemma_payload_len(v: ValueView)
    requires
        prim_ok(v),
    ensures
        spec_payload_bytes(v).len() <= 32767,
{
}

/// One partially built collection: the name the finished collection will be
/// filed under, the members settled so far, and the member name waiting for
/// its value, if any.
pub struct Frame {
    pub cname: Seq<char>,
    pub members: Seq<(Seq<char>, ValueView)>,
    pub pending: Option<Seq<char>>,
}

/// The structuring pass's state: the group's finished attributes (with
/// additional-values runs already coalesced) and the stack of collections
/// still open.
pub struct StructState {
    pub done: Seq<(Seq<char>, ValueView)>,
    pub stack: Seq<Frame>,
}

/// The empty structuring state a group opens with.
pub open spec fn struct_init() -> StructState {
    StructState { done: Seq::empty(), stack: Seq::empty() }
}

/// Append one finished attribute to a group, coalescing additional values:
/// an empty-named attribute extends the run opened by the last non-empty
/// name, turning a scalar into a vector or growing the vector; anything
/// else starts its own entry.
pub open spec fn coalesce_push(
    done: Seq<(Seq<char>, ValueView)>,
    name: Seq<char>,
    v: ValueView,
) -> Seq<(Seq<char>, ValueView)> {
    if name.len() == 0 && done.len() > 0 && done.last().0.len() > 0 {
        let last = done.last();
        match last.1 {
            ValueView::Vector(es) => done.update(
                done.len() - 1,
                (last.0, ValueView::Vector(es.push(v))),
            ),
            _ => done.update(done.len() - 1, (last.0, ValueView::Vector(seq![last.1, v]))),
        }
    } else {
        done.push((name, v))
    }
}

/// One step of the structuring pass, on one raw attribute of a group.
///
/// At the top level, `begCollection` opens a collection filed under the
/// attribute's name, a primitive is a finished attribute, and a stray
/// `endCollection` or `memberAttrName` is a protocol error. Inside a
/// collection, members alternate between a `memberAttrName` (empty name,
/// value carrying the member's name) and the member's value, which may
/// itself open a nested collection; `endCollection` closes the collection,
/// and a member name left without a value is a protocol error.
pub open spec fn spec_structure_step(s: StructState, a: RawView) -> Result<
    StructState,
    IppError,
> {
    if s.stack.len() == 0 {
        match a.value {
            ValueView::BegCollection => Ok(
                StructState {
                    done: s.done,
                    stack: seq![
                        Frame { cname: a.name, members: Seq::empty(), pending: None },
                    ],
                },
            ),
            ValueView::EndCollection => Err(IppError::Protocol),
            ValueView::MemberAttrName(_) => Err(IppError::Protocol),
            _ => Ok(StructState { done: coalesce_push(s.done, a.name, a.value), stack: s.stack }),
        }
    } else {
        let f = s.stack.last();
        if a.name.len() != 0 {
            Err(IppError::Protocol)
        } else {
            match f.pending {
                None => match a.value {
                    ValueView::MemberAttrName(m) => Ok(
                        StructState {
                            done: s.done,
                            stack: s.stack.update(
                                s.stack.len() - 1,
                                (Frame { cname: f.cname, members: f.members, pending: Some(m) }),
                            ),
                        },
                    ),
                    ValueView::EndCollection => {
                        let closed = ValueView::Collection(f.members);
                        if s.stack.len() == 1 {
                            Ok(
                                StructState {
                                    done: coalesce_push(s.done, f.cname, closed),
                                    stack: Seq::empty(),
                                },
                            )
                        } else {
                            let parent = s.stack[s.stack.len() - 2];
                            Ok(
                                StructState {
                                    done: s.done,
                                    stack: s.stack.take(s.stack.len() - 2).push(
                                        (Frame {
                                            cname: parent.cname,
                                            members: parent.members.push((f.cname, closed)),
                                            pending: parent.pending,
                                        }),
                                    ),
                                },
                            )
                        }
                    },
                    _ => Err(IppError::Protocol),
                },
                Some(m) => match a.value {
                    ValueView::BegCollection => Ok(
                        StructState {
                            done: s.done,
                            stack: s.stack.update(
                                s.stack.len() - 1,
                                (Frame { cname: f.cname, members: f.members, pending: None }),
                            ).push((Frame { cname: m, members: Seq::empty(), pending: None })),
                        },
                    ),
                    ValueView::EndCollection => Err(IppError::Protocol),
                    ValueView::MemberAttrName(_) => Err(IppError::Protocol),
                    _ => Ok(
                        StructState {
                            done: s.done,
                            stack: s.stack.update(
                                s.stack.len() - 1,
                                (Frame {
                                    cname: f.cname,
                                    members: f.members.push((m, a.value)),
                                    pending: None,
                                }),
                            ),
                        },
                    ),
                },
            }
        }
    }
}

/// Run the structuring pass over the raw attributes from `i` on.
pub open spec fn spec_structure_fold(s: StructState, rs: Seq<RawView>, i: int) -> Result<
    StructState,
    IppError,
>
    decreases rs.len() - i,
{
    if i < 0 || i >= rs.len() {
        Ok(s)
    } else {
        match spec_structure_step(s, rs[i]) {
            Err(e) => Err(e),
            Ok(s2) => spec_structure_fold(s2, rs, i + 1),
        }
    }
}

/// A value that the encoder can flatten under a name: a conforming
/// primitive or sentinel, a conforming collection, or a vector of values
/// that may stand inside one.
pub open spec fn encodable_value(v: ValueView) -> bool {
    match v {
        ValueView::Collection(members) => members_ok(members, 0),
        ValueView::Vector(vs) => vector_ok(vs, 0),
        _ => prim_ok(v),
    }
}

/// Every attribute of a group from `i` on conforms.
pub open spec fn attrs_ok(attrs: Seq<(Seq<char>, ValueView)>, i: int) -> bool
    decreases attrs.len() - i,
{
    if i < 0 || i >= attrs.len() {
        true
    } else {
        attr_ok(attrs[i].0, attrs[i].1) && attrs_ok(attrs, i + 1)
    }
}

/// Whether a primitive or sentinel conforms; see `prim_ok`.
pub fn check_prim(v: &AttributeValue) -> (r: bool)
    ensures
        r == prim_ok(v@),
{
    match v {
        AttributeValue::Unsupported(b) => b.len() <= 32767,
        AttributeValue::Unknown(b) => b.len() <= 32767,
        AttributeValue::NoValue => true,
        AttributeValue::Integer(_) => true,
        AttributeValue::Boolean(_) => true,
        AttributeValue::Enum(_) => true,
        AttributeValue::OctetStringUnspecified(s) => str_byte_len(s.as_str()) <= 32767,
        AttributeValue::DateTime { direction_from_utc, .. } => *direction_from_utc == 0x2B
            || *direction_from_utc == 0x2D,
        AttributeValue::Resolution { .. } => true,
        AttributeValue::RangeOfInteger { .. } => true,
        AttributeValue::BegCollection => true,
        AttributeValue::TextWithLanguage { language, text } => {
            let ll = str_byte_len(language.as_str());
            let tl = str_byte_len(text.as_str());
            ll <= 32767 && tl <= 32767 && 4 + ll + tl <= 32767
        },
        AttributeValue::NameWithLanguage { language, name } => {
            let ll = str_byte_len(language.as_str());
            let tl = str_byte_len(name.as_str());
            ll <= 32767 && tl <= 32767 && 4 + ll + tl <= 32767
        },
        AttributeValue::EndCollection => true,
        AttributeValue::TextWithoutLanguage(s) => str_byte_len(s.as_str()) <= 32767,
        AttributeValue::NameWithoutLanguage(s) => str_byte_len(s.as_str()) <= 32767,
        AttributeValue::Keyword(s) => str_byte_len(s.as_str()) <= 32767,
        AttributeValue::Uri(s) => str_byte_len(s.as_str()) <= 32767,
        AttributeValue::UriScheme(s) => str_byte_len(s.as_str()) <= 32767,
        AttributeValue::Charset(s) => str_byte_len(s.as_str()) <= 32767,
        AttributeValue::NaturalLanguage(s) => str_byte_len(s.as_str()) <= 32767,
        AttributeValue::MimeMediaType(s) => str_byte_len(s.as_str()) <= 32767,
        AttributeValue::MemberAttrName(s) => str_byte_len(s.as_str()) <= 32767,
        AttributeValue::Collection(_) => false,
        AttributeValue::Vector(_) => false,
    }
}

/// Whether a value may stand inside a collection; see `inner_value_ok`.
pub fn check_inner_value(v: &AttributeValue) -> (r: bool)
    ensures
        r == inner_value_ok(v@),
    decreases v, 0int,
{
    match v {
        AttributeValue::Collection(ms) => check_members(ms),
        AttributeValue::Vector(_) => false,
        AttributeValue::BegCollection => false,
        AttributeValue::EndCollection => false,
        AttributeValue::MemberAttrName(_) => false,
        _ => check_prim(v),
    }
}

/// Whether every member of a collection conforms; see `members_ok`.
pub fn check_members(ms: &Vec<(String, AttributeValue)>) -> (r: bool)
    ensures
        r == members_ok(members_view(ms@), 0),
    decreases ms, 1int,
{
    let mut ok = true;
    let mut i = ms.len();
    while i > 0
        invariant
            i <= ms@.len(),
            ok == members_ok(members_view(ms@), i as int),
        decreases i,
    {
        i = i - 1;
        let pair = &ms[i];
        let name_ok = str_byte_len(pair.0.as_str()) <= 32767;
        proof {
            vstd::std_specs::vec::axiom_vec_index_decreases(*ms, i as int);
        }
        let val_ok = check_inner_value(&pair.1);
        proof {
            assert(members_view(ms@)[i as int] == (ms@[i as int].0@, ms@[i as int].1@));
        }
        ok = name_ok && val_ok && ok;
    }
    ok
}

/// Whether every element of a vector conforms; see `vector_ok`.
pub fn check_vector(vs: &Vec<AttributeValue>) -> (r: bool)
    ensures
        r == vector_ok(values_view(vs@), 0),
    decreases vs, 1int,
{
    let mut ok = true;
    let mut i = vs.len();
    while i > 0
        invariant
            i <= vs@.len(),
            ok == vector_ok(values_view(vs@), i as int),
        decreases i,
    {
        i = i - 1;
        proof {
            vstd::std_specs::vec::axiom_vec_index_decreases(*vs, i as int);
        }
        let val_ok = check_inner_value(&vs[i]);
        proof {
            assert(values_view(vs@)[i as int] == vs@[i as int]@);
        }
        ok = val_ok && ok;
    }
    ok
}

/// Whether a named attribute conforms; see `attr_ok`.
pub fn check_attr(name: &String, v: &AttributeValue) -> (r: bool)
    ensures
        r == attr_ok(name@, v@),
{
    if name.as_str().is_empty() {
        return false;
    }
    if str_byte_len(name.as_str()) > 32767 {
        return false;
    }
    match v {
        AttributeValue::Collection(ms) => check_members(ms),
        AttributeValue::Vector(vs) => vs.len() >= 2 && check_vector(vs),
        AttributeValue::BegCollection => false,
        AttributeValue::EndCollection => false,
        AttributeValue::MemberAttrName(_) => false,
        _ => check_prim(v),
    }
}

/// Whether every attribute of a group conforms; see `attrs_ok`.
pub fn check_group_attrs(attrs: &Vec<(String, AttributeValue)>) -> (r: bool)
    ensures
        r == attrs_ok(members_view(attrs@), 0),
{
    let mut ok = true;
    let mut i = attrs.len();
    while i > 0
        invariant
            i <= attrs@.len(),
            ok == attrs_ok(members_view(attrs@), i as int),
        decreases i,
    {
        i = i - 1;
        let pair = &attrs[i];
        let a_ok = check_attr(&pair.0, &pair.1);
        proof {
            assert(members_view(attrs@)[i as int] == (attrs@[i as int].0@, attrs@[i as int].1@));
        }
        ok = a_ok && ok;
    }
    ok
}

/// Write one raw attribute: tag, length-prefixed name, length-prefixed
/// payload.
pub fn write_raw(out: &mut Vec<u8>, name: &str, v: &AttributeValue)
    requires
        utf8(name@).len() <= 32767,
        prim_ok(v@),
    ensures
        final(out)@ == old(out)@ + spec_raw_bytes(RawView { name: name@, value: v@ }),
{
    let ghost out0 = out@;
    out.push(v.value_tag());
    push_u16_be(out, name.len() as u16);
    push_str_bytes(out, name);
    let mut payload: Vec<u8> = Vec::new();
    v.encode_payload(&mut payload);
    proof {
        lemma_payload_len(v@);
        assert(payload@ =~= spec_payload_bytes(v@));
    }
    push_u16_be(out, payload.len() as u16);
    push_bytes(out, &payload);
    proof {
        assert(out@ =~= out0 + spec_raw_bytes(RawView { name: name@, value: v@ }));
    }
}

/// Write a `memberAttrName` raw attribute: empty name, the member's name as
/// the payload.
fn write_member_name(out: &mut Vec<u8>, m: &String)
    requires
        utf8(m@).len() <= 32767,
    ensures
        final(out)@ == old(out)@ + spec_raw_bytes(
            RawView { name: Seq::empty(), value: ValueView::MemberAttrName(m@) },
        ),
{
    let ghost out0 = out@;
    out.push(0x4Au8);
    push_u16_be(out, 0u16);
    push_u16_be(out, m.as_str().len() as u16);
    push_str_bytes(out, m.as_str());
    proof {
        assert(utf8(Seq::<char>::empty()) =~= Seq::<u8>::empty());
        assert(out@ =~= out0 + spec_raw_bytes(
            RawView { name: Seq::empty(), value: ValueView::MemberAttrName(m@) },
        ));
    }
}

/// Flatten one logical attribute onto the wire: exactly the serialisation
/// of [`flatten_attr`].
pub fn encode_attr(out: &mut Vec<u8>, name: &str, v: &AttributeValue)
    requires
        utf8(name@).len() <= 32767,
        encodable_value(v@),
    ensures
        final(out)@ == old(out)@ + raws_bytes(flatten_attr(name@, v@), 0),
    decreases v,
{
    let ghost out0 = out@;
    match v {
        AttributeValue::Collection(ms) => {
            let ghost mv = members_view(ms@);
            let ghost beg_raw = RawView { name: name@, value: ValueView::BegCollection };
            let ghost end_raw = RawView { name: Seq::empty(), value: ValueView::EndCollection };
            let beg = AttributeValue::BegCollection;
            write_raw(out, name, &beg);
            encode_members(out, ms);
            let end = AttributeValue::EndCollection;
            proof {
                reveal_strlit("");
                assert(""@ =~= Seq::<char>::empty());
                assert(utf8(""@).len() == 0);
            }
            write_raw(out, "", &end);
            proof {
                lemma_raws_bytes_one(beg_raw);
                lemma_raws_bytes_one(end_raw);
                lemma_raws_bytes_concat(seq![beg_raw], flatten_members(mv, 0) + seq![end_raw]);
                lemma_raws_bytes_concat(flatten_members(mv, 0), seq![end_raw]);
                assert(flatten_attr(name@, v@) =~= seq![beg_raw] + (flatten_members(mv, 0)
                    + seq![end_raw]));
                assert(out@ =~= out0 + raws_bytes(flatten_attr(name@, v@), 0));
            }
        },
        AttributeValue::Vector(vs) => {
            encode_vector(out, name, vs);
        },
        _ => {
            write_raw(out, name, v);
            proof {
                lemma_raws_bytes_one(RawView { name: name@, value: v@ });
                assert(out@ =~= out0 + raws_bytes(flatten_attr(name@, v@), 0));
            }
        },
    }
}

/// Flatten a collection's members onto the wire: exactly the serialisation
/// of [`flatten_members`].
fn encode_members(out: &mut Vec<u8>, ms: &Vec<(String, AttributeValue)>)
    requires
        members_ok(members_view(ms@), 0),
    ensures
        final(out)@ == old(out)@ + raws_bytes(flatten_members(members_view(ms@), 0), 0),
    decreases ms,
{
    let ghost out0 = out@;
    let ghost mv = members_view(ms@);
    let mut i: usize = 0;
    while i < ms.len()
        invariant
            i <= ms@.len(),
            mv == members_view(ms@),
            members_ok(mv, i as int),
            out@ + raws_bytes(flatten_members(mv, i as int), 0) == out0 + raws_bytes(
                flatten_members(mv, 0),
                0,
            ),
        decreases ms@.len() - i,
    {
        let ghost out_iter = out@;
        let pair = &ms[i];
        proof {
            assert(mv[i as int] == (ms@[i as int].0@, ms@[i as int].1@));
        }
        write_member_name(out, &pair.0);
        proof {
            reveal_strlit("");
            assert(""@ =~= Seq::<char>::empty());
            assert(utf8(""@).len() == 0);
            vstd::std_specs::vec::axiom_vec_index_decreases(*ms, i as int);
            lemma_inner_encodable(mv[i as int].1);
            assert(*pair == ms@[i as int]);
        }
        encode_attr(out, "", &pair.1);
        proof {
            let man_raw = RawView {
                name: Seq::empty(),
                value: ValueView::MemberAttrName(mv[i as int].0),
            };
            lemma_raws_bytes_one(man_raw);
            lemma_raws_bytes_concat(
                seq![man_raw],
                flatten_attr(Seq::empty(), mv[i as int].1) + flatten_members(mv, i as int + 1),
            );
            lemma_raws_bytes_concat(
                flatten_attr(Seq::empty(), mv[i as int].1),
                flatten_members(mv, i as int + 1),
            );
            assert(flatten_members(mv, i as int) =~= seq![man_raw] + (flatten_attr(
                Seq::empty(),
                mv[i as int].1,
            ) + flatten_members(mv, i as int + 1)));
            assert(out@ =~= out_iter + spec_raw_bytes(man_raw) + raws_bytes(
                flatten_attr(Seq::empty(), mv[i as int].1),
                0,
            ));
            assert(out@ + raws_bytes(flatten_members(mv, i as int + 1), 0) =~= out_iter
                + raws_bytes(flatten_members(mv, i as int), 0));
        }
        i = i + 1;
    }
    proof {
        assert(raws_bytes(flatten_members(mv, ms@.len() as int), 0) == Seq::<u8>::empty());
        assert(out@ =~= out0 + raws_bytes(flatten_members(mv, 0), 0));
    }
}

/// Flatten a vector onto the wire: exactly the serialisation of
/// [`flatten_vector`].
fn encode_vector(out: &mut Vec<u8>, name: &str, vs: &Vec<AttributeValue>)
    requires
        utf8(name@).len() <= 32767,
        vector_ok(values_view(vs@), 0),
    ensures
        final(out)@ == old(out)@ + raws_bytes(flatten_vector(name@, values_view(vs@), 0), 0),
    decreases vs,
{
    let ghost out0 = out@;
    let ghost vv = values_view(vs@);
    let mut i: usize = 0;
    while i < vs.len()
        invariant
            i <= vs@.len(),
            vv == values_view(vs@),
            vector_ok(vv, i as int),
            utf8(name@).len() <= 32767,
            out@ + raws_bytes(flatten_vector(name@, vv, i as int), 0) == out0 + raws_bytes(
                flatten_vector(name@, vv, 0),
                0,
            ),
        decreases vs@.len() - i,
    {
        let ghost out_iter = out@;
        proof {
            assert(vv[i as int] == vs@[i as int]@);
            reveal_strlit("");
            assert(""@ =~= Seq::<char>::empty());
            assert(utf8(""@).len() == 0);
            vstd::std_specs::vec::axiom_vec_index_decreases(*vs, i as int);
            lemma_inner_encodable(vv[i as int]);
        }
        if i == 0 {
            encode_attr(out, name, &vs[i]);
        } else {
            encode_attr(out, "", &vs[i]);
        }
        proof {
            let ghost ename: Seq<char> = if i == 0 {
                name@
            } else {
                Seq::empty()
            };
            lemma_raws_bytes_concat(
                flatten_attr(ename, vv[i as int]),
                flatten_vector(name@, vv, i as int + 1),
            );
            assert(flatten_vector(name@, vv, i as int) == flatten_attr(ename, vv[i as int])
                + flatten_vector(name@, vv, i as int + 1));
            assert(out@ + raws_bytes(flatten_vector(name@, vv, i as int + 1), 0) =~= out_iter
                + raws_bytes(flatten_vector(name@, vv, i as int), 0));
        }
        i = i + 1;
    }
    proof {
        assert(raws_bytes(flatten_vector(name@, vv, vs@.len() as int), 0) == Seq::<u8>::empty());
        assert(out@ =~= out0 + raws_bytes(flatten_vector(name@, vv, 0), 0));
    }
}

/// Folding over concatenated raw runs is folding over each in turn.
pub proof fn lemma_fold_concat(s: StructState, xs: Seq<RawView>, ys: Seq<RawView>)
    ensures
        spec_structure_fold(s, xs + ys, 0) == (match spec_structure_fold(s, xs, 0) {
            Err(e) => Err::<StructState, IppError>(e),
            Ok(s2) => spec_structure_fold(s2, ys, 0),
        }),
    decreases xs.len(),
{
    if xs.len() == 0 {
        assert(xs + ys =~= ys);
    } else {
        assert((xs + ys)[0] == xs[0]);
        match spec_structure_step(s, xs[0]) {
            Err(e) => {},
            Ok(s2) => {
                lemma_fold_skip(s2, xs + ys, 1);
                lemma_fold_skip(s2, xs, 1);
                assert((xs + ys).skip(1) =~= xs.skip(1) + ys);
                lemma_fold_concat(s2, xs.skip(1), ys);
            },
        }
    }
}

/// Folding from index `i` is folding the `skip(i)` suffix from 0.
pub proof fn lemma_fold_skip(s: StructState, rs: Seq<RawView>, i: int)
    requires
        0 <= i <= rs.len(),
    ensures
        spec_structure_fold(s, rs, i) == spec_structure_fold(s, rs.skip(i), 0),
    decreases rs.len() - i,
{
    if i < rs.len() {
        assert(rs.skip(i)[0] == rs[i]);
        match spec_structure_step(s, rs[i]) {
            Err(e) => {},
            Ok(s2) => {
                lemma_fold_skip(s2, rs, i + 1);
                lemma_fold_skip(s2, rs.skip(i), 1);
                assert(rs.skip(i + 1) =~= rs.skip(i).skip(1));
            },
        }
    } else {
        assert(rs.skip(i).len() == 0);
    }
}

/// Processing the flattening of a member's value, with the member's name
/// pending on top of the stack, settles that member and nothing else.
proof fn lemma_fold_flatten_member_value(s: StructState, m: Seq<char>, v: ValueView)
    requires
        inner_value_ok(v),
        s.stack.len() >= 1,
        s.stack.last().pending == Some(m),
    ensures
        spec_structure_fold(s, flatten_attr(Seq::empty(), v), 0) == Ok::<StructState, IppError>(
            (StructState {
                done: s.done,
                stack: s.stack.update(
                    s.stack.len() - 1,
                    (Frame {
                        cname: s.stack.last().cname,
                        members: s.stack.last().members.push((m, v)),
                        pending: None,
                    }),
                ),
            }),
        ),
    decreases v, 2int,
{
    let target = StructState {
        done: s.done,
        stack: s.stack.update(
            s.stack.len() - 1,
            (Frame {
                cname: s.stack.last().cname,
                members: s.stack.last().members.push((m, v)),
                pending: None,
            }),
        ),
    };
    match v {
        ValueView::Collection(members) => {
            let beg = RawView { name: Seq::empty(), value: ValueView::BegCollection };
            let end = RawView { name: Seq::empty(), value: ValueView::EndCollection };
            let mid = flatten_members(members, 0);
            assert(flatten_attr(Seq::empty(), v) == seq![beg] + mid + seq![end]);
            let s1 = spec_structure_step(s, beg).unwrap();
            assert(s1.stack =~= s.stack.update(
                s.stack.len() - 1,
                (Frame {
                    cname: s.stack.last().cname,
                    members: s.stack.last().members,
                    pending: None,
                }),
            ).push((Frame { cname: m, members: Seq::empty(), pending: None })));
            lemma_fold_flatten_members(s1, members, 0);
            let s2 = spec_structure_fold(s1, mid, 0).unwrap();
            assert(s2.stack.last().members =~= members);
            let s3 = spec_structure_step(s2, end).unwrap();
            assert(s3.stack =~= target.stack);
            assert(s3 == target);
            assert(spec_structure_fold(s3, seq![end], 1) == Ok::<StructState, IppError>(s3));
            lemma_fold_concat(s, seq![beg], mid + seq![end]);
            lemma_fold_concat(s1, mid, seq![end]);
            assert(seq![beg] + (mid + seq![end]) =~= seq![beg] + mid + seq![end]);
            assert(spec_structure_fold(s1, seq![beg], 1) == Ok::<StructState, IppError>(s1));
        },
        _ => {
            let raw = RawView { name: Seq::empty(), value: v };
            assert(flatten_attr(Seq::empty(), v) == seq![raw]);
            let s1 = spec_structure_step(s, raw).unwrap();
            assert(s1 == target);
            assert(spec_structure_fold(s1, seq![raw], 1) == Ok::<StructState, IppError>(s1));
        },
    }
}

/// Processing the flattening of a run of members, over a frame with no
/// member pending, appends exactly those members to the frame.
proof fn lemma_fold_flatten_members(s: StructState, members: Seq<(Seq<char>, ValueView)>, i: int)
    requires
        0 <= i <= members.len(),
        members_ok(members, i),
        s.stack.len() >= 1,
        s.stack.last().pending is None,
    ensures
        spec_structure_fold(s, flatten_members(members, i), 0) == Ok::<StructState, IppError>(
            (StructState {
                done: s.done,
                stack: s.stack.update(
                    s.stack.len() - 1,
                    (Frame {
                        cname: s.stack.last().cname,
                        members: s.stack.last().members + members.skip(i),
                        pending: None,
                    }),
                ),
            }),
        ),
    decreases members, members.len() - i, 3int,
{
    if i == members.len() {
        assert(flatten_members(members, i) == Seq::<RawView>::empty());
        assert(members.skip(i) =~= Seq::<(Seq<char>, ValueView)>::empty());
        assert(s.stack.last().members + members.skip(i) =~= s.stack.last().members);
        assert(s.stack.update(
            s.stack.len() - 1,
            (Frame {
                cname: s.stack.last().cname,
                members: s.stack.last().members + members.skip(i),
                pending: None,
            }),
        ) =~= s.stack);
    } else {
        assert(inner_value_ok(members[i].1) && members_ok(members, i + 1));
        let man = RawView { name: Seq::empty(), value: ValueView::MemberAttrName(members[i].0) };
        let mid = flatten_attr(Seq::empty(), members[i].1);
        let rest = flatten_members(members, i + 1);
        assert(flatten_members(members, i) == seq![man] + mid + rest);
        let s1 = spec_structure_step(s, man).unwrap();
        assert(s1.stack =~= s.stack.update(
            s.stack.len() - 1,
            (Frame {
                cname: s.stack.last().cname,
                members: s.stack.last().members,
                pending: Some(members[i].0),
            }),
        ));
        lemma_fold_flatten_member_value(s1, members[i].0, members[i].1);
        let s2 = spec_structure_fold(s1, mid, 0).unwrap();
        assert(s2.stack =~= s.stack.update(
            s.stack.len() - 1,
            (Frame {
                cname: s.stack.last().cname,
                members: s.stack.last().members.push((members[i].0, members[i].1)),
                pending: None,
            }),
        ));
        lemma_fold_flatten_members(s2, members, i + 1);
        let s3 = spec_structure_fold(s2, rest, 0).unwrap();
        assert(s3.stack =~= s.stack.update(
            s.stack.len() - 1,
            (Frame {
                cname: s.stack.last().cname,
                members: s.stack.last().members + members.skip(i),
                pending: None,
            }),
        )) by {
            assert((members[i].0, members[i].1) == members[i]);
            assert(s.stack.last().members.push(members[i]) + members.skip(i + 1)
                =~= s.stack.last().members + members.skip(i));
        }
        lemma_fold_concat(s, seq![man], mid + rest);
        lemma_fold_concat(s1, mid, rest);
        assert(seq![man] + (mid + rest) =~= seq![man] + mid + rest);
        assert(spec_structure_fold(s1, seq![man], 1) == Ok::<StructState, IppError>(s1));
    }
}

/// Processing the flattening of one attribute at the top level appends it
/// to the finished list, through [`coalesce_push`].
proof fn lemma_fold_flatten_attr_top(s: StructState, name: Seq<char>, v: ValueView)
    requires
        inner_value_ok(v),
        s.stack.len() == 0,
    ensures
        spec_structure_fold(s, flatten_attr(name, v), 0) == Ok::<StructState, IppError>(
            (StructState { done: coalesce_push(s.done, name, v), stack: Seq::empty() }),
        ),
    decreases v, 2int,
{
    assert(s.stack =~= Seq::<Frame>::empty());
    match v {
        ValueView::Collection(members) => {
            let beg = RawView { name, value: ValueView::BegCollection };
            let end = RawView { name: Seq::empty(), value: ValueView::EndCollection };
            let mid = flatten_members(members, 0);
            assert(flatten_attr(name, v) == seq![beg] + mid + seq![end]);
            let s1 = spec_structure_step(s, beg).unwrap();
            assert(s1.stack =~= seq![
                Frame { cname: name, members: Seq::empty(), pending: None },
            ]);
            lemma_fold_flatten_members(s1, members, 0);
            let s2 = spec_structure_fold(s1, mid, 0).unwrap();
            assert(s2.stack.last().members =~= members);
            let s3 = spec_structure_step(s2, end).unwrap();
            assert(s3.stack =~= Seq::<Frame>::empty());
            assert(s3 == (StructState {
                done: coalesce_push(s.done, name, v),
                stack: Seq::empty(),
            }));
            assert(spec_structure_fold(s3, seq![end], 1) == Ok::<StructState, IppError>(s3));
            lemma_fold_concat(s, seq![beg], mid + seq![end]);
            lemma_fold_concat(s1, mid, seq![end]);
            assert(seq![beg] + (mid + seq![end]) =~= seq![beg] + mid + seq![end]);
            assert(spec_structure_fold(s1, seq![beg], 1) == Ok::<StructState, IppError>(s1));
            assert(spec_structure_fold(s, seq![beg], 0) == Ok::<StructState, IppError>(s1));
            assert(spec_structure_fold(s2, seq![end], 0) == Ok::<StructState, IppError>(s3));
            assert(spec_structure_fold(s1, mid + seq![end], 0) == Ok::<StructState, IppError>(
                s3,
            ));
            assert(spec_structure_fold(s, flatten_attr(name, v), 0) == Ok::<
                StructState,
                IppError,
            >(s3));
        },
        _ => {
            let raw = RawView { name, value: v };
            assert(flatten_attr(name, v) == seq![raw]);
            let s1 = spec_structure_step(s, raw).unwrap();
            assert(spec_structure_fold(s1, seq![raw], 1) == Ok::<StructState, IppError>(s1));
            assert(spec_structure_fold(s, seq![raw], 0) == Ok::<StructState, IppError>(s1));
        },
    }
}

/// Processing the remaining elements of a vector, once the finished list
/// ends in the vector's partial form, grows that vector entry to the end.
proof fn lemma_fold_flatten_vector_rest(
    s: StructState,
    name: Seq<char>,
    vs: Seq<ValueView>,
    i: int,
    prefix: Seq<ValueView>,
)
    requires
        1 <= i <= vs.len(),
        vector_ok(vs, i),
        s.stack.len() == 0,
        s.done.len() >= 1,
        s.done.last() == (name, ValueView::Vector(prefix)),
        name.len() >= 1,
    ensures
        spec_structure_fold(s, flatten_vector(name, vs, i), 0) == Ok::<StructState, IppError>(
            (StructState {
                done: s.done.update(
                    s.done.len() - 1,
                    (name, ValueView::Vector(prefix + vs.skip(i))),
                ),
                stack: Seq::empty(),
            }),
        ),
    decreases vs, vs.len() - i, 3int,
{
    assert(s.stack =~= Seq::<Frame>::empty());
    if i == vs.len() {
        assert(flatten_vector(name, vs, i) == Seq::<RawView>::empty());
        assert(prefix + vs.skip(i) =~= prefix);
        assert(s.done.update(s.done.len() - 1, (name, ValueView::Vector(prefix + vs.skip(i))))
            =~= s.done);
    } else {
        assert(inner_value_ok(vs[i]) && vector_ok(vs, i + 1));
        let head = flatten_attr(Seq::empty(), vs[i]);
        let rest = flatten_vector(name, vs, i + 1);
        assert(flatten_vector(name, vs, i) == head + rest);
        lemma_fold_flatten_attr_top(s, Seq::empty(), vs[i]);
        let s1 = spec_structure_fold(s, head, 0).unwrap();
        assert(s1.done =~= s.done.update(
            s.done.len() - 1,
            (name, ValueView::Vector(prefix.push(vs[i]))),
        ));
        lemma_fold_flatten_vector_rest(s1, name, vs, i + 1, prefix.push(vs[i]));
        let s2 = spec_structure_fold(s1, rest, 0).unwrap();
        assert(s2.done =~= s.done.update(
            s.done.len() - 1,
            (name, ValueView::Vector(prefix + vs.skip(i))),
        )) by {
            assert(prefix.push(vs[i]) + vs.skip(i + 1) =~= prefix + vs.skip(i));
        }
        lemma_fold_concat(s, head, rest);
    }
}

/// Processing the flattening of a whole vector at the top level appends one
/// vector attribute: the first element opens the run as a scalar, the
/// second fuses it into a vector, and the rest extend it.
proof fn lemma_fold_flatten_vector_top(
    s: StructState,
    name: Seq<char>,
    vs: Seq<ValueView>,
)
    requires
        vs.len() >= 2,
        vector_ok(vs, 0),
        s.stack.len() == 0,
        name.len() >= 1,
    ensures
        spec_structure_fold(s, flatten_vector(name, vs, 0), 0) == Ok::<StructState, IppError>(
            (StructState {
                done: s.done.push((name, ValueView::Vector(vs))),
                stack: Seq::empty(),
            }),
        ),
    decreases vs, vs.len() + 1, 4int,
{
    assert(s.stack =~= Seq::<Frame>::empty());
    assert(inner_value_ok(vs[0]) && vector_ok(vs, 1));
    assert(inner_value_ok(vs[1]) && vector_ok(vs, 2));
    let head0 = flatten_attr(name, vs[0]);
    let rest0 = flatten_vector(name, vs, 1);
    assert(flatten_vector(name, vs, 0) == head0 + rest0);
    lemma_fold_flatten_attr_top(s, name, vs[0]);
    let s1 = spec_structure_fold(s, head0, 0).unwrap();
    assert(s1.done == s.done.push((name, vs[0])));
    let head1 = flatten_attr(Seq::empty(), vs[1]);
    let rest1 = flatten_vector(name, vs, 2);
    assert(flatten_vector(name, vs, 1) == head1 + rest1);
    lemma_fold_flatten_attr_top(s1, Seq::empty(), vs[1]);
    let s2 = spec_structure_fold(s1, head1, 0).unwrap();
    assert(!(vs[0] is Vector));
    assert(s2.done =~= s.done.push((name, ValueView::Vector(seq![vs[0], vs[1]])))) by {
        assert(s1.done.last() == (name, vs[0]));
        assert(s1.done.update(s1.done.len() - 1, (name, ValueView::Vector(seq![vs[0], vs[1]])))
            =~= s.done.push((name, ValueView::Vector(seq![vs[0], vs[1]]))));
    }
    if vs.len() == 2 {
        assert(flatten_vector(name, vs, 2) == Seq::<RawView>::empty());
        assert(seq![vs[0], vs[1]] =~= vs);
        lemma_fold_concat(s, head0, rest0);
        lemma_fold_concat(s1, head1, rest1);
    } else {
        lemma_fold_flatten_vector_rest(s2, name, vs, 2, seq![vs[0], vs[1]]);
        let s3 = spec_structure_fold(s2, rest1, 0).unwrap();
        assert(s3.done =~= s.done.push((name, ValueView::Vector(vs)))) by {
            assert(seq![vs[0], vs[1]] + vs.skip(2) =~= vs);
            assert(s2.done.update(s2.done.len() - 1, (name, ValueView::Vector(vs))) =~= s.done.push(
                (name, ValueView::Vector(vs)),
            ));
        }
        lemma_fold_concat(s, head0, rest0);
        lemma_fold_concat(s1, head1, rest1);
    }
}

/// The flattening of a whole group of attributes.
pub open spec fn flatten_group(attrs: Seq<(Seq<char>, ValueView)>, i: int) -> Seq<RawView>
    decreases attrs.len() - i,
{
    if i < 0 || i >= attrs.len() {
        Seq::empty()
    } else {
        flatten_attr(attrs[i].0, attrs[i].1) + flatten_group(attrs, i + 1)
    }
}

/// Processing the flattening of a conforming group of attributes appends
/// exactly those attributes, each under its own name.
proof fn lemma_fold_flatten_group(s: StructState, attrs: Seq<(Seq<char>, ValueView)>, i: int)
    requires
        0 <= i <= attrs.len(),
        attrs_ok(attrs, i),
        s.stack.len() == 0,
    ensures
        spec_structure_fold(s, flatten_group(attrs, i), 0) == Ok::<StructState, IppError>(
            (StructState { done: s.done + attrs.skip(i), stack: Seq::empty() }),
        ),
    decreases attrs.len() - i,
{
    assert(s.stack =~= Seq::<Frame>::empty());
    if i == attrs.len() {
        assert(flatten_group(attrs, i) == Seq::<RawView>::empty());
        assert(s.done + attrs.skip(i) =~= s.done);
    } else {
        assert(attr_ok(attrs[i].0, attrs[i].1) && attrs_ok(attrs, i + 1));
        let head = flatten_attr(attrs[i].0, attrs[i].1);
        let rest = flatten_group(attrs, i + 1);
        match attrs[i].1 {
            ValueView::Vector(vs) => {
                lemma_fold_flatten_vector_top(s, attrs[i].0, vs);
            },
            _ => {
                assert(inner_value_ok(attrs[i].1));
                lemma_fold_flatten_attr_top(s, attrs[i].0, attrs[i].1);
            },
        }
        let s1 = spec_structure_fold(s, head, 0).unwrap();
        assert(s1.done =~= s.done.push(attrs[i])) by {
            assert((attrs[i].0, attrs[i].1) == attrs[i]);
        }
        lemma_fold_flatten_group(s1, attrs, i + 1);
        let s2 = spec_structure_fold(s1, rest, 0).unwrap();
        assert(s2.done =~= s.done + attrs.skip(i)) by {
            assert(s.done.push(attrs[i]) + attrs.skip(i + 1) =~= s.done + attrs.skip(i));
        }
        lemma_fold_concat(s, head, rest);
    }
}

/// The structuring pass inverts flattening: running the flattening of a
/// conforming group through the structuring pass, from the empty state,
/// rebuilds exactly that group — collections reassembled and
/// additional-values runs coalesced back into their vectors.
pub proof fn lemma_structure_inverts_flatten(attrs: Seq<(Seq<char>, ValueView)>)
    requires
        attrs_ok(attrs, 0),
    ensures
        spec_structure_fold(struct_init(), flatten_group(attrs, 0), 0) == Ok::<
            StructState,
            IppError,
        >((StructState { done: attrs, stack: Seq::empty() })),
{
    lemma_fold_flatten_group(struct_init(), attrs, 0);
    assert(Seq::<(Seq<char>, ValueView)>::empty() + attrs.skip(0) =~= attrs);
}

/// Every raw attribute from `i` on conforms to the wire limits.
pub open spec fn raws_ok(rs: Seq<RawView>, i: int) -> bool
    decreases rs.len() - i,
{
    if i < 0 || i >= rs.len() {
        true
    } else {
        raw_ok(rs[i]) && raws_ok(rs, i + 1)
    }
}

/// Conformance from index `i` is conformance of the `skip(i)` suffix.
pub(crate) proof fn lemma_raws_ok_skip(rs: Seq<RawView>, i: int)
    requires
        0 <= i <= rs.len(),
    ensures
        raws_ok(rs, i) == raws_ok(rs.skip(i), 0),
    decreases rs.len() - i,
{
    if i < rs.len() {
        assert(rs.skip(i)[0] == rs[i]);
        lemma_raws_ok_skip(rs, i + 1);
        lemma_raws_ok_skip(rs.skip(i), 1);
        assert(rs.skip(i + 1) =~= rs.skip(i).skip(1));
    } else {
        assert(rs.skip(i).len() == 0);
    }
}

/// Conforming runs concatenate to a conforming run.
proof fn lemma_raws_ok_concat(xs: Seq<RawView>, ys: Seq<RawView>)
    requires
        raws_ok(xs, 0),
        raws_ok(ys, 0),
    ensures
        raws_ok(xs + ys, 0),
    decreases xs.len(),
{
    if xs.len() == 0 {
        assert(xs + ys =~= ys);
    } else {
        assert((xs + ys)[0] == xs[0]);
        lemma_raws_ok_skip(xs + ys, 1);
        lemma_raws_ok_skip(xs, 1);
        assert((xs + ys).skip(1) =~= xs.skip(1) + ys);
        lemma_raws_ok_concat(xs.skip(1), ys);
    }
}

/// The empty name costs no bytes.
proof fn lemma_empty_name_bytes()
    ensures
        utf8(Seq::<char>::empty()).len() == 0,
{
    assert(utf8(Seq::<char>::empty()) =~= Seq::<u8>::empty());
}

/// Flattening an encodable attribute yields conforming raw attributes.
proof fn lemma_flatten_attr_raws_ok(name: Seq<char>, v: ValueView)
    requires
        utf8(name).len() <= 32767,
        encodable_value(v),
    ensures
        raws_ok(flatten_attr(name, v), 0),
    decreases v, 2int,
{
    lemma_empty_name_bytes();
    match v {
        ValueView::Collection(members) => {
            let beg = RawView { name, value: ValueView::BegCollection };
            let end = RawView { name: Seq::empty(), value: ValueView::EndCollection };
            lemma_flatten_members_raws_ok(members, 0);
            assert(raws_ok(seq![beg], 0)) by {
                assert(raws_ok(seq![beg], 1));
            }
            assert(raws_ok(seq![end], 0)) by {
                assert(raws_ok(seq![end], 1));
            }
            lemma_raws_ok_concat(seq![beg], flatten_members(members, 0));
            lemma_raws_ok_concat(seq![beg] + flatten_members(members, 0), seq![end]);
        },
        ValueView::Vector(vs) => {
            lemma_flatten_vector_raws_ok(name, vs, 0);
        },
        _ => {
            let raw = RawView { name, value: v };
            assert(raws_ok(seq![raw], 0)) by {
                assert(raws_ok(seq![raw], 1));
            }
        },
    }
}

/// Flattening conforming members yields conforming raw attributes.
proof fn lemma_flatten_members_raws_ok(members: Seq<(Seq<char>, ValueView)>, i: int)
    requires
        members_ok(members, i),
    ensures
        raws_ok(flatten_members(members, i), 0),
    decreases members, members.len() - i, 3int,
{
    lemma_empty_name_bytes();
    if 0 <= i < members.len() {
        let man = RawView { name: Seq::empty(), value: ValueView::MemberAttrName(members[i].0) };
        assert(raws_ok(seq![man], 0)) by {
            assert(raws_ok(seq![man], 1));
        }
        lemma_inner_encodable(members[i].1);
        lemma_flatten_attr_raws_ok(Seq::empty(), members[i].1);
        lemma_flatten_members_raws_ok(members, i + 1);
        lemma_raws_ok_concat(seq![man], flatten_attr(Seq::empty(), members[i].1));
        lemma_raws_ok_concat(
            seq![man] + flatten_attr(Seq::empty(), members[i].1),
            flatten_members(members, i + 1),
        );
    }
}

/// Flattening a conforming vector yields conforming raw attributes.
proof fn lemma_flatten_vector_raws_ok(name: Seq<char>, vs: Seq<ValueView>, i: int)
    requires
        utf8(name).len() <= 32767,
        vector_ok(vs, i),
    ensures
        raws_ok(flatten_vector(name, vs, i), 0),
    decreases vs, vs.len() - i, 3int,
{
    lemma_empty_name_bytes();
    if 0 <= i < vs.len() {
        lemma_inner_encodable(vs[i]);
        if i == 0 {
            lemma_flatten_attr_raws_ok(name, vs[i]);
        } else {
            lemma_flatten_attr_raws_ok(Seq::empty(), vs[i]);
        }
        lemma_flatten_vector_raws_ok(name, vs, i + 1);
        lemma_raws_ok_concat(
            flatten_attr(
                if i == 0 {
                    name
                } else {
                    Seq::empty()
                },
                vs[i],
            ),
            flatten_vector(name, vs, i + 1),
        );
    }
}

/// Flattening a conforming group yields conforming raw attributes.
pub proof fn lemma_flatten_group_raws_ok(attrs: Seq<(Seq<char>, ValueView)>, i: int)
    requires
        0 <= i <= attrs.len(),
        attrs_ok(attrs, i),
    ensures
        raws_ok(flatten_group(attrs, i), 0),
    decreases attrs.len() - i,
{
    if i < attrs.len() {
        assert(attr_ok(attrs[i].0, attrs[i].1) && attrs_ok(attrs, i + 1));
        match attrs[i].1 {
            ValueView::Vector(vs) => {
                lemma_flatten_vector_raws_ok(attrs[i].0, vs, 0);
            },
            _ => {
                assert(encodable_value(attrs[i].1));
                lemma_flatten_attr_raws_ok(attrs[i].0, attrs[i].1);
            },
        }
        lemma_flatten_group_raws_ok(attrs, i + 1);
        lemma_raws_ok_concat(flatten_attr(attrs[i].0, attrs[i].1), flatten_group(attrs, i + 1));
    }
}

/// Every value tag is at or above 0x10: a raw attribute's first byte is
/// never mistaken for a delimiter.
pub proof fn lemma_value_tag_not_delimiter(v: ValueView)
    ensures
        spec_value_tag(v) >= 0x10,
{
}

/// Length truthfulness: in every encoded attribute, the 16-bit big-endian
/// value-length field read back from its place after the name equals the
/// byte length of the value payload that follows it.
pub proof fn lemma_value_length_truthful(a: RawView)
    requires
        raw_ok(a),
    ensures
        spec_raw_bytes(a)[3 + utf8(a.name).len() as int] == be16(
            spec_payload_bytes(a.value).len() as u16,
        )[0],
        spec_raw_bytes(a)[4 + utf8(a.name).len() as int] == be16(
            spec_payload_bytes(a.value).len() as u16,
        )[1],
        crate::wire::u16_of_be(
            spec_raw_bytes(a)[3 + utf8(a.name).len() as int],
            spec_raw_bytes(a)[4 + utf8(a.name).len() as int],
        ) == spec_payload_bytes(a.value).len(),
{
    let nl = utf8(a.name).len() as int;
    let vl = spec_payload_bytes(a.value).len() as int;
    lemma_payload_len(a.value);
    crate::wire::lemma_be16_round_trip(vl as u16);
    assert(spec_raw_bytes(a)[3 + nl] == be16(vl as u16)[0]);
    assert(spec_raw_bytes(a)[4 + nl] == be16(vl as u16)[1]);
}

/// How one raw attribute changes the collection nesting depth.
pub open spec fn depth_delta(a: RawView) -> int {
    if a.value is BegCollection {
        1
    } else if a.value is EndCollection {
        -1
    } else {
        0
    }
}

/// The summed depth change of the raw attributes in `[i, j)`.
pub open spec fn depth_sum(rs: Seq<RawView>, i: int, j: int) -> int
    decreases j - i,
{
    if i >= j {
        0
    } else {
        depth_delta(rs[i]) + depth_sum(rs, i + 1, j)
    }
}

/// A successful step moves the stack depth by exactly the raw attribute's
/// depth delta, and never below zero.
proof fn lemma_step_depth(s: StructState, a: RawView)
    requires
        spec_structure_step(s, a) is Ok,
    ensures
        spec_structure_step(s, a).unwrap().stack.len() == s.stack.len() + depth_delta(a),
{
}

/// A successful fold's final depth is the initial depth plus the summed
/// delta, and no prefix ever drives the depth below zero.
proof fn lemma_fold_depth(s: StructState, rs: Seq<RawView>, i: int)
    requires
        0 <= i <= rs.len(),
        spec_structure_fold(s, rs, i) is Ok,
    ensures
        spec_structure_fold(s, rs, i).unwrap().stack.len() == s.stack.len() + depth_sum(
            rs,
            i,
            rs.len() as int,
        ),
        forall|j: int| i <= j <= rs.len() ==> s.stack.len() + depth_sum(rs, i, j) >= 0,
    decreases rs.len() - i,
{
    if i < rs.len() {
        let s1 = spec_structure_step(s, rs[i]).unwrap();
        lemma_step_depth(s, rs[i]);
        lemma_fold_depth(s1, rs, i + 1);
        assert forall|j: int| i <= j <= rs.len() implies s.stack.len() + depth_sum(rs, i, j)
            >= 0 by {
            if j > i {
                assert(depth_sum(rs, i, j) == depth_delta(rs[i]) + depth_sum(rs, i + 1, j));
            }
        }
    }
}

/// Collection balance: a raw attribute run that the structuring pass
/// accepts with no collection left open is brace balanced — every
/// `begCollection` has a matching `endCollection` at its own depth, the
/// running depth never goes negative and ends at zero. Unbalanced input is
/// the contrapositive: it is never accepted.
pub proof fn lemma_collection_balance(rs: Seq<RawView>)
    requires
        spec_structure_fold(struct_init(), rs, 0) matches Ok(st) && st.stack.len() == 0,
    ensures
        depth_sum(rs, 0, rs.len() as int) == 0,
        forall|j: int| 0 <= j <= rs.len() ==> depth_sum(rs, 0, j) >= 0,
{
    lemma_fold_depth(struct_init(), rs, 0);
}

} // verus!
