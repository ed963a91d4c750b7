//! Top-level IPP messages: an 8-byte header (version, operation or status
//! code, request id), attribute groups each opened by a delimiter tag, the
//! end-of-attributes delimiter, and any trailing document data.
use vstd::prelude::*;

use crate::codec::{
    attrs_ok, check_group_attrs, coalesce_push, encode_attr, flatten_attr, flatten_group,
    lemma_fold_skip, lemma_flatten_group_raws_ok, lemma_payload_len,
    lemma_raws_bytes_concat, lemma_raws_bytes_skip, lemma_raws_ok_skip,
    lemma_structure_inverts_flatten, lemma_value_tag_not_delimiter, raw_ok, raws_bytes, raws_ok,
    spec_raw_bytes, spec_structure_fold, spec_structure_step, struct_init, Frame, RawView,
    StructState,
};
use crate::error::IppError;
use crate::tags::{
    operation_code, spec_is_delimiter, spec_operation_from_code, spec_status_from_code,
    spec_tag_from_byte, status_code, tag_code, DelimiterOrValueTag, PrinterOperation, StatusCode,
};
use crate::values::{
    members_view, spec_decode_value, string_from_utf8, utf8, values_view, AttributeValue,
    ValueView,
};
use crate::wire::{
    be16i, be32i, copy_bytes, push_bytes, push_i16_be, push_i32_be, read_i16_be, read_i32_be,
    read_u16_be, u16_of_be, u32_of_be,
};

verus! {

/// The attribute groups of a message, as views: a delimiter tag and the
/// group's ordered attributes.
pub type GroupsView = Seq<(DelimiterOrValueTag, Seq<(Seq<char>, ValueView)>)>;

/// The view of the attribute groups an exec message holds.
pub open spec fn groups_view(
    gs: Seq<(DelimiterOrValueTag, Vec<(String, AttributeValue)>)>,
) -> GroupsView {
    Seq::new(
        gs.len(),
        |i: int|
            if 0 <= i < gs.len() {
                (gs[i].0, members_view(gs[i].1@))
            } else {
                (DelimiterOrValueTag::EndOfAttributesTag, Seq::empty())
            },
    )
}

/// Every group from `i` on is opened by a group delimiter (never the
/// end-of-attributes tag) and holds only conforming attributes.
pub open spec fn groups_ok(gs: GroupsView, i: int) -> bool
    decreases gs.len() - i,
{
    if i < 0 || i >= gs.len() {
        true
    } else {
        spec_is_delimiter(gs[i].0) && gs[i].0 != DelimiterOrValueTag::EndOfAttributesTag
            && attrs_ok(gs[i].1, 0) && groups_ok(gs, i + 1)
    }
}

/// The serialisation of one group's attributes from `j` on.
pub open spec fn attrs_bytes(attrs: Seq<(Seq<char>, ValueView)>, j: int) -> Seq<u8>
    decreases attrs.len() - j,
{
    if j < 0 || j >= attrs.len() {
        Seq::empty()
    } else {
        raws_bytes(flatten_attr(attrs[j].0, attrs[j].1), 0) + attrs_bytes(attrs, j + 1)
    }
}

/// The serialisation of the groups from `i` on: each is its delimiter byte
/// followed by its attributes.
pub open spec fn groups_bytes(gs: GroupsView, i: int) -> Seq<u8>
    decreases gs.len() - i,
{
    if i < 0 || i >= gs.len() {
        Seq::empty()
    } else {
        seq![tag_code(gs[i].0)] + attrs_bytes(gs[i].1, 0) + groups_bytes(gs, i + 1)
    }
}

/// The full serialisation of a message: the 8-byte header, the groups, the
/// end-of-attributes tag, and the document data verbatim.
pub open spec fn spec_message_bytes(
    version_major: i8,
    version_minor: i8,
    code: i16,
    request_id: i32,
    groups: GroupsView,
    data: Seq<u8>,
) -> Seq<u8> {
    seq![version_major as u8, version_minor as u8] + be16i(code) + be32i(request_id)
        + groups_bytes(groups, 0) + seq![0x03u8] + data
}

/// Whether every group of a message conforms; see `groups_ok`.
pub fn check_groups(gs: &Vec<(DelimiterOrValueTag, Vec<(String, AttributeValue)>)>) -> (r: bool)
    ensures
        r == groups_ok(groups_view(gs@), 0),
{
    let mut ok = true;
    let mut i = gs.len();
    while i > 0
        invariant
            i <= gs@.len(),
            ok == groups_ok(groups_view(gs@), i as int),
        decreases i,
    {
        i = i - 1;
        let g = &gs[i];
        let tag_ok = g.0.is_delimiter() && !(g.0.to_byte() == 0x03);
        let attrs_fine = check_group_attrs(&g.1);
        proof {
            assert(groups_view(gs@)[i as int] == (gs@[i as int].0, members_view(gs@[i as int].1@)));
            assert((gs@[i as int].0 == DelimiterOrValueTag::EndOfAttributesTag) <==> (tag_code(
                gs@[i as int].0,
            ) == 0x03));
        }
        ok = tag_ok && attrs_fine && ok;
    }
    ok
}

/// Serialise a message body: the groups, the end-of-attributes tag, and the
/// data.
fn write_groups_and_data(
    out: &mut Vec<u8>,
    gs: &Vec<(DelimiterOrValueTag, Vec<(String, AttributeValue)>)>,
    data: &Vec<u8>,
)
    requires
        groups_ok(groups_view(gs@), 0),
    ensures
        final(out)@ == old(out)@ + groups_bytes(groups_view(gs@), 0) + seq![0x03u8] + data@,
{
    let ghost out0 = out@;
    let ghost gv = groups_view(gs@);
    let mut i: usize = 0;
    while i < gs.len()
        invariant
            i <= gs@.len(),
            gv == groups_view(gs@),
            groups_ok(gv, i as int),
            out@ + groups_bytes(gv, i as int) == out0 + groups_bytes(gv, 0),
        decreases gs@.len() - i,
    {
        let ghost out_iter = out@;
        let g = &gs[i];
        proof {
            assert(gv[i as int] == (gs@[i as int].0, members_view(gs@[i as int].1@)));
        }
        out.push(g.0.to_byte());
        let ghost after_tag = out@;
        let mut j: usize = 0;
        while j < g.1.len()
            invariant
                j <= g.1@.len(),
                gv == groups_view(gs@),
                0 <= i < gs@.len(),
                *g == gs@[i as int],
                gv[i as int] == (gs@[i as int].0, members_view(gs@[i as int].1@)),
                attrs_ok(gv[i as int].1, 0),
                attrs_ok(gv[i as int].1, j as int),
                out@ + attrs_bytes(gv[i as int].1, j as int) == after_tag + attrs_bytes(
                    gv[i as int].1,
                    0,
                ),
            decreases g.1@.len() - j,
        {
            let ghost out_attr = out@;
            let pair = &g.1[j];
            proof {
                assert(members_view(gs@[i as int].1@)[j as int] == (
                    gs@[i as int].1@[j as int].0@,
                    gs@[i as int].1@[j as int].1@,
                ));
                assert(*pair == gs@[i as int].1@[j as int]);
            }
            encode_attr(out, pair.0.as_str(), &pair.1);
            proof {
                assert(out@ + attrs_bytes(gv[i as int].1, j as int + 1) =~= out_attr + attrs_bytes(
                    gv[i as int].1,
                    j as int,
                ));
            }
            j = j + 1;
        }
        proof {
            assert(attrs_bytes(gv[i as int].1, g.1@.len() as int) == Seq::<u8>::empty());
            assert(out@ =~= after_tag + attrs_bytes(gv[i as int].1, 0));
            assert(out@ + groups_bytes(gv, i as int + 1) =~= out_iter + groups_bytes(
                gv,
                i as int,
            ));
        }
        i = i + 1;
    }
    out.push(0x03u8);
    push_bytes(out, data);
    proof {
        assert(groups_bytes(gv, gs@.len() as int) == Seq::<u8>::empty());
        assert(out@ =~= out0 + groups_bytes(gv, 0) + seq![0x03u8] + data@);
    }
}

/// The view of a request: header fields, group views, data bytes.
pub struct RequestView {
    pub version_major: i8,
    pub version_minor: i8,
    pub operation_id: PrinterOperation,
    pub request_id: i32,
    pub attrs: GroupsView,
    pub data: Seq<u8>,
}

/// An IPP request: protocol version, the operation requested, a caller
/// chosen request id, attribute groups in caller order, and the document
/// bytes appended after the attributes.
#[derive(Debug, PartialEq)]
pub struct IPPRequest {
    pub version_major: i8,
    pub version_minor: i8,
    pub operation_id: PrinterOperation,
    pub request_id: i32,
    pub attrs: Vec<(DelimiterOrValueTag, Vec<(String, AttributeValue)>)>,
    pub data: Vec<u8>,
}

impl View for IPPRequest {
    type V = RequestView;

    open spec fn view(&self) -> RequestView {
        RequestView {
            version_major: self.version_major,
            version_minor: self.version_minor,
            operation_id: self.operation_id,
            request_id: self.request_id,
            attrs: groups_view(self.attrs@),
            data: self.data@,
        }
    }
}

/// A conforming request: every group conforms.
pub open spec fn request_ok(r: RequestView) -> bool {
    groups_ok(r.attrs, 0)
}

/// The serialisation of a request.
pub open spec fn spec_request_bytes(r: RequestView) -> Seq<u8> {
    spec_message_bytes(
        r.version_major,
        r.version_minor,
        operation_code(r.operation_id),
        r.request_id,
        r.attrs,
        r.data,
    )
}

impl IPPRequest {
    /// Serialise the request onto `out`. A request whose groups do not
    /// conform (a mis-tagged group, an over-long name or value, a sentinel
    /// supplied as a value) is refused as a protocol error, leaving `out`
    /// untouched; a conforming request appends exactly
    /// [`spec_request_bytes`] and returns how many bytes that was.
    pub fn write_to_stream(&self, out: &mut Vec<u8>) -> (r: Result<usize, IppError>)
        ensures
            (match r {
                Ok(written) => request_ok(self@) && final(out)@ == old(out)@ + spec_request_bytes(
                    self@,
                ) && written == spec_request_bytes(self@).len(),
                Err(e) => !request_ok(self@) && final(out)@ == old(out)@ && e == IppError::Protocol,
            }),
    {
        if !check_groups(&self.attrs) {
            return Err(IppError::Protocol);
        }
        let start_len = out.len();
        let ghost out0 = out@;
        out.push(self.version_major as u8);
        out.push(self.version_minor as u8);
        push_i16_be(out, self.operation_id.to_code());
        push_i32_be(out, self.request_id);
        write_groups_and_data(out, &self.attrs, &self.data);
        proof {
            assert(out@ =~= out0 + spec_request_bytes(self@));
        }
        Ok(out.len() - start_len)
    }
}

/// The view of a response: header fields, group views, data bytes.
pub struct ResponseView {
    pub version_major: i8,
    pub version_minor: i8,
    pub status_code: StatusCode,
    pub request_id: i32,
    pub attrs: GroupsView,
    pub data: Seq<u8>,
}

/// An IPP response: protocol version, the status the printer reported, the
/// request id echoed back, attribute groups, and trailing document bytes.
#[derive(Debug, PartialEq)]
pub struct IPPResponse {
    pub version_major: i8,
    pub version_minor: i8,
    pub status_code: StatusCode,
    pub request_id: i32,
    pub attrs: Vec<(DelimiterOrValueTag, Vec<(String, AttributeValue)>)>,
    pub data: Vec<u8>,
}

impl View for IPPResponse {
    type V = ResponseView;

    open spec fn view(&self) -> ResponseView {
        ResponseView {
            version_major: self.version_major,
            version_minor: self.version_minor,
            status_code: self.status_code,
            request_id: self.request_id,
            attrs: groups_view(self.attrs@),
            data: self.data@,
        }
    }
}

/// A conforming response: every group conforms.
pub open spec fn response_ok(r: ResponseView) -> bool {
    groups_ok(r.attrs, 0)
}

/// The serialisation of a response.
pub open spec fn spec_response_bytes(r: ResponseView) -> Seq<u8> {
    spec_message_bytes(
        r.version_major,
        r.version_minor,
        status_code(r.status_code),
        r.request_id,
        r.attrs,
        r.data,
    )
}

impl IPPResponse {
    /// Serialise the response onto `out`, exactly as a request is
    /// serialised but with the status code in the operation field.
    pub fn write_to_stream(&self, out: &mut Vec<u8>) -> (r: Result<usize, IppError>)
        ensures
            (match r {
                Ok(written) => response_ok(self@) && final(out)@ == old(out)@
                    + spec_response_bytes(self@) && written == spec_response_bytes(self@).len(),
                Err(e) => !response_ok(self@) && final(out)@ == old(out)@ && e
                    == IppError::Protocol,
            }),
    {
        if !check_groups(&self.attrs) {
            return Err(IppError::Protocol);
        }
        let start_len = out.len();
        let ghost out0 = out@;
        out.push(self.version_major as u8);
        out.push(self.version_minor as u8);
        push_i16_be(out, self.status_code.to_code());
        push_i32_be(out, self.request_id);
        write_groups_and_data(out, &self.attrs, &self.data);
        proof {
            assert(out@ =~= out0 + spec_response_bytes(self@));
        }
        Ok(out.len() - start_len)
    }
}

/// Parsing one raw attribute whose tag byte (already read) was `tag`,
/// starting at the name-length field: the i16-be name length (sign bit
/// reserved zero), the UTF-8 name, the i16-be value length, and the payload
/// handed to the value decoder. Running out of input is an I/O error; a
/// length with the sign bit set is a protocol error; a name that is not
/// UTF-8 is a value-format error.
pub open spec fn spec_parse_attr(bytes: Seq<u8>, i: int, tag: u8) -> Result<
    (RawView, int),
    IppError,
> {
    if i + 2 > bytes.len() {
        Err(IppError::Io)
    } else {
        let nl = u16_of_be(bytes[i], bytes[i + 1]) as int;
        if nl > 32767 {
            Err(IppError::Protocol)
        } else if i + 2 + nl > bytes.len() {
            Err(IppError::Io)
        } else {
            let name_bytes = bytes.subrange(i + 2, i + 2 + nl);
            if !vstd::utf8::valid_utf8(name_bytes) {
                Err(IppError::ValueFormat)
            } else {
                let j = i + 2 + nl;
                if j + 2 > bytes.len() {
                    Err(IppError::Io)
                } else {
                    let vl = u16_of_be(bytes[j], bytes[j + 1]) as int;
                    if vl > 32767 {
                        Err(IppError::Protocol)
                    } else if j + 2 + vl > bytes.len() {
                        Err(IppError::Io)
                    } else {
                        let payload = bytes.subrange(j + 2, j + 2 + vl);
                        match spec_decode_value(tag, payload) {
                            Err(e) => Err(e),
                            Ok(v) => Ok(
                                (
                                    RawView {
                                        name: vstd::utf8::decode_utf8(name_bytes),
                                        value: v,
                                    },
                                    j + 2 + vl,
                                ),
                            ),
                        }
                    }
                }
            }
        }
    }
}

/// Closing the group being read, if one is open: a collection still open
/// inside it is a protocol error.
pub open spec fn finish_group(
    cur: Option<(DelimiterOrValueTag, StructState)>,
    groups: GroupsView,
) -> Result<GroupsView, IppError> {
    match cur {
        None => Ok(groups),
        Some((t, st)) => if st.stack.len() == 0 {
            Ok(groups.push((t, st.done)))
        } else {
            Err(IppError::Protocol)
        },
    }
}

/// The group-reading loop from position `i`: a byte below 0x10 must be a
/// registered delimiter, which closes the group being read and either ends
/// the attributes or opens the next group; any other byte is the value tag
/// of the next attribute of the open group, fed through the structuring
/// pass. Returns the groups and the position after the end-of-attributes
/// tag. Input that runs out before end-of-attributes is an I/O error; an
/// attribute before any group delimiter is a protocol error.
pub open spec fn spec_parse_groups(
    bytes: Seq<u8>,
    i: int,
    cur: Option<(DelimiterOrValueTag, StructState)>,
    groups: GroupsView,
) -> Result<(GroupsView, int), IppError>
    decreases bytes.len() - i,
{
    if i < 0 || i >= bytes.len() {
        Err(IppError::Io)
    } else {
        let b = bytes[i];
        if b < 0x10 {
            match spec_tag_from_byte(b) {
                None => Err(IppError::Protocol),
                Some(t) => match finish_group(cur, groups) {
                    Err(e) => Err(e),
                    Ok(gs) => if t == DelimiterOrValueTag::EndOfAttributesTag {
                        Ok((gs, i + 1))
                    } else {
                        spec_parse_groups(bytes, i + 1, Some((t, struct_init())), gs)
                    },
                },
            }
        } else {
            match cur {
                None => Err(IppError::Protocol),
                Some((t, st)) => match spec_parse_attr(bytes, i + 1, b) {
                    Err(e) => Err(e),
                    Ok(p) => match spec_structure_step(st, p.0) {
                        Err(e) => Err(e),
                        Ok(st2) => spec_parse_groups(
                            bytes,
                            if p.1 > i {
                                p.1
                            } else {
                                i + 1
                            },
                            Some((t, st2)),
                            groups,
                        ),
                    },
                },
            }
        }
    }
}

/// Parsing a whole message: the fixed 8-byte header, the groups, and
/// whatever follows the end-of-attributes tag as document data.
pub open spec fn spec_parse_message(bytes: Seq<u8>) -> Result<
    (i8, i8, i16, i32, GroupsView, Seq<u8>),
    IppError,
> {
    if bytes.len() < 8 {
        Err(IppError::Io)
    } else {
        let vmaj = bytes[0] as i8;
        let vmin = bytes[1] as i8;
        let code = u16_of_be(bytes[2], bytes[3]) as i16;
        let rid = u32_of_be(bytes[4], bytes[5], bytes[6], bytes[7]) as i32;
        match spec_parse_groups(bytes, 8, None, Seq::empty()) {
            Err(e) => Err(e),
            Ok(p) => Ok((vmaj, vmin, code, rid, p.0, bytes.skip(p.1))),
        }
    }
}

/// Parsing a request: a parsed message whose code is a registered
/// operation; an unregistered operation code is a protocol error.
pub open spec fn spec_parse_request(bytes: Seq<u8>) -> Result<RequestView, IppError> {
    match spec_parse_message(bytes) {
        Err(e) => Err(e),
        Ok(m) => match spec_operation_from_code(m.2) {
            None => Err(IppError::Protocol),
            Some(op) => Ok(
                RequestView {
                    version_major: m.0,
                    version_minor: m.1,
                    operation_id: op,
                    request_id: m.3,
                    attrs: m.4,
                    data: m.5,
                },
            ),
        },
    }
}

/// Parsing a response: a parsed message whose code is a registered status;
/// an unregistered status code is a protocol error.
pub open spec fn spec_parse_response(bytes: Seq<u8>) -> Result<ResponseView, IppError> {
    match spec_parse_message(bytes) {
        Err(e) => Err(e),
        Ok(m) => match spec_status_from_code(m.2) {
            None => Err(IppError::Protocol),
            Some(st) => Ok(
                ResponseView {
                    version_major: m.0,
                    version_minor: m.1,
                    status_code: st,
                    request_id: m.3,
                    attrs: m.4,
                    data: m.5,
                },
            ),
        },
    }
}

/// One collection still being assembled by the decoder.
pub struct FrameBuild {
    pub cname: String,
    pub members: Vec<(String, AttributeValue)>,
    pub pending: Option<String>,
}

/// The view of one frame.
pub open spec fn frame_view(f: FrameBuild) -> Frame {
    Frame {
        cname: f.cname@,
        members: members_view(f.members@),
        pending: match f.pending {
            Some(s) => Some(s@),
            None => None,
        },
    }
}

/// The view of the frame stack.
pub open spec fn frames_view(fs: Seq<FrameBuild>) -> Seq<Frame> {
    Seq::new(
        fs.len(),
        |i: int|
            if 0 <= i < fs.len() {
                frame_view(fs[i])
            } else {
                Frame { cname: Seq::empty(), members: Seq::empty(), pending: None }
            },
    )
}

/// Append one finished attribute to a group's list, coalescing additional
/// values exactly as [`coalesce_push`] describes.
fn push_coalesced(done: &mut Vec<(String, AttributeValue)>, name: String, v: AttributeValue)
    ensures
        members_view(final(done)@) == coalesce_push(members_view(old(done)@), name@, v@),
{
    let ghost done0 = done@;
    let ghost name0 = name@;
    let ghost v0 = v@;
    let name_empty = name.as_str().is_empty();
    let fuse = name_empty && done.len() > 0 && !done[done.len() - 1].0.as_str().is_empty();
    if fuse {
        let last = match done.pop() {
            Some(p) => p,
            None => {
                proof {
                    assert(false);
                }
                vstd::pervasive::unreached()
            },
        };
        let (lname, lval) = last;
        let ghost lname0 = lname@;
        let ghost lval0 = lval@;
        proof {
            assert((lname0, lval0) == members_view(done0).last());
            assert(done@ =~= done0.take(done0.len() - 1));
        }
        match lval {
            AttributeValue::Vector(es) => {
                let ghost es0 = es@;
                let mut es2 = es;
                es2.push(v);
                proof {
                    assert(values_view(es2@) =~= values_view(es0).push(v0));
                    assert(lval0 == ValueView::Vector(values_view(es0)));
                }
                done.push((lname, AttributeValue::Vector(es2)));
                proof {
                    assert(members_view(done@) =~= members_view(done0).update(
                        done0.len() - 1,
                        (lname0, ValueView::Vector(values_view(es0).push(v0))),
                    ));
                }
            },
            other => {
                let ghost other0 = other@;
                let mut es: Vec<AttributeValue> = Vec::new();
                es.push(other);
                es.push(v);
                proof {
                    assert(values_view(es@) =~= seq![other0, v0]);
                }
                done.push((lname, AttributeValue::Vector(es)));
                proof {
                    assert(members_view(done@) =~= members_view(done0).update(
                        done0.len() - 1,
                        (lname0, ValueView::Vector(seq![other0, v0])),
                    ));
                    assert(!(lval0 is Vector));
                }
            },
        }
    } else {
        done.push((name, v));
        proof {
            assert(members_view(done@) =~= members_view(done0).push((name0, v0)));
        }
    }
}

/// Feed one raw attribute through the structuring pass, exactly as
/// [`spec_structure_step`] describes.
fn structure_step(
    done: &mut Vec<(String, AttributeValue)>,
    stack: &mut Vec<FrameBuild>,
    name: String,
    value: AttributeValue,
) -> (r: Result<(), IppError>)
    ensures
        (match r {
            Ok(_) => spec_structure_step(
                (StructState {
                    done: members_view(old(done)@),
                    stack: frames_view(old(stack)@),
                }),
                (RawView { name: name@, value: value@ }),
            ) matches Ok(s2) && members_view(final(done)@) == s2.done && frames_view(
                final(stack)@,
            ) == s2.stack,
            Err(e) => spec_structure_step(
                (StructState {
                    done: members_view(old(done)@),
                    stack: frames_view(old(stack)@),
                }),
                (RawView { name: name@, value: value@ }),
            ) == Err::<StructState, IppError>(e),
        }),
{
    let ghost stack0 = stack@;
    let ghost name0 = name@;
    let ghost value0 = value@;
    if stack.len() == 0 {
        match value {
            AttributeValue::BegCollection => {
                stack.push(FrameBuild { cname: name, members: Vec::new(), pending: None });
                proof {
                    assert(members_view(Seq::<(String, AttributeValue)>::empty()) =~= Seq::<
                        (Seq<char>, ValueView),
                    >::empty());
                    assert(frames_view(stack@) =~= seq![
                        Frame { cname: name0, members: Seq::empty(), pending: None },
                    ]);
                }
                Ok(())
            },
            AttributeValue::EndCollection => Err(IppError::Protocol),
            AttributeValue::MemberAttrName(_) => Err(IppError::Protocol),
            other => {
                push_coalesced(done, name, other);
                proof {
                    assert(frames_view(stack@) =~= Seq::<Frame>::empty());
                }
                Ok(())
            },
        }
    } else {
        if !name.as_str().is_empty() {
            return Err(IppError::Protocol);
        }
        let f = match stack.pop() {
            Some(f) => f,
            None => {
                proof {
                    assert(false);
                }
                vstd::pervasive::unreached()
            },
        };
        let FrameBuild { cname, members, pending } = f;
        let ghost cname0 = cname@;
        let ghost members0 = members@;
        proof {
            assert(frames_view(stack0).last() == (Frame {
                cname: cname0,
                members: members_view(members0),
                pending: match pending {
                    Some(ref s) => Some(s@),
                    None => None,
                },
            }));
            assert(stack@ =~= stack0.take(stack0.len() - 1));
        }
        match pending {
            None => {
                match value {
                    AttributeValue::MemberAttrName(m) => {
                        let ghost m0 = m@;
                        stack.push(FrameBuild { cname, members, pending: Some(m) });
                        proof {
                            assert(value0->MemberAttrName_0 == m0);
                            assert(frames_view(stack@) =~= frames_view(stack0).update(
                                stack0.len() - 1,
                                (Frame {
                                    cname: cname0,
                                    members: members_view(members0),
                                    pending: Some(m0),
                                }),
                            ));
                        }
                        Ok(())
                    },
                    AttributeValue::EndCollection => {
                        let closed = AttributeValue::Collection(members);
                        proof {
                            assert(closed@ == ValueView::Collection(members_view(members0)));
                        }
                        if stack.len() == 0 {
                            push_coalesced(done, cname, closed);
                            proof {
                                assert(frames_view(stack@) =~= Seq::<Frame>::empty());
                                assert(stack0.len() == 1);
                            }
                            Ok(())
                        } else {
                            let parent = match stack.pop() {
                                Some(p) => p,
                                None => {
                                    proof {
                                        assert(false);
                                    }
                                    vstd::pervasive::unreached()
                                },
                            };
                            let FrameBuild {
                                cname: pcname,
                                members: pmembers,
                                pending: ppending,
                            } = parent;
                            let ghost pcname0 = pcname@;
                            let ghost pmembers0 = pmembers@;
                            let ghost ppending0: Option<Seq<char>> = match ppending {
                                Some(ref s) => Some(s@),
                                None => None,
                            };
                            proof {
                                assert(frames_view(stack0)[stack0.len() - 2] == (Frame {
                                    cname: pcname0,
                                    members: members_view(pmembers0),
                                    pending: ppending0,
                                }));
                            }
                            let mut pm = pmembers;
                            pm.push((cname, closed));
                            proof {
                                assert(members_view(pm@) =~= members_view(pmembers0).push(
                                    (cname0, ValueView::Collection(members_view(members0))),
                                ));
                            }
                            stack.push(
                                FrameBuild { cname: pcname, members: pm, pending: ppending },
                            );
                            proof {
                                assert(frames_view(stack@) =~= frames_view(stack0).take(
                                    stack0.len() - 2,
                                ).push(
                                    (Frame {
                                        cname: pcname0,
                                        members: members_view(pmembers0).push(
                                            (
                                                cname0,
                                                ValueView::Collection(members_view(members0)),
                                            ),
                                        ),
                                        pending: ppending0,
                                    }),
                                ));
                            }
                            Ok(())
                        }
                    },
                    _ => Err(IppError::Protocol),
                }
            },
            Some(m) => {
                let ghost m0 = m@;
                match value {
                    AttributeValue::BegCollection => {
                        stack.push(FrameBuild { cname, members, pending: None });
                        stack.push(FrameBuild { cname: m, members: Vec::new(), pending: None });
                        proof {
                            assert(members_view(Seq::<(String, AttributeValue)>::empty()) =~= Seq::<
                                (Seq<char>, ValueView),
                            >::empty());
                            assert(frames_view(stack@) =~= frames_view(stack0).update(
                                stack0.len() - 1,
                                (Frame {
                                    cname: cname0,
                                    members: members_view(members0),
                                    pending: None,
                                }),
                            ).push((Frame { cname: m0, members: Seq::empty(), pending: None })));
                        }
                        Ok(())
                    },
                    AttributeValue::EndCollection => Err(IppError::Protocol),
                    AttributeValue::MemberAttrName(_) => Err(IppError::Protocol),
                    other => {
                        let mut fm = members;
                        fm.push((m, other));
                        proof {
                            assert(members_view(fm@) =~= members_view(members0).push(
                                (m0, value0),
                            ));
                        }
                        stack.push(FrameBuild { cname, members: fm, pending: None });
                        proof {
                            assert(frames_view(stack@) =~= frames_view(stack0).update(
                                stack0.len() - 1,
                                (Frame {
                                    cname: cname0,
                                    members: members_view(members0).push((m0, value0)),
                                    pending: None,
                                }),
                            ));
                        }
                        Ok(())
                    },
                }
            },
        }
    }
}

/// Parse one raw attribute, exactly as [`spec_parse_attr`] describes.
fn parse_attr(buf: &Vec<u8>, i: usize, tag: u8) -> (r: Result<(String, AttributeValue, usize), IppError>)
    ensures
        (match r {
            Ok(t) => spec_parse_attr(buf@, i as int, tag) matches Ok(p) && p.0.name == t.0@
                && p.0.value == t.1@ && p.1 == t.2 as int && i < t.2 <= buf@.len(),
            Err(e) => spec_parse_attr(buf@, i as int, tag) == Err::<(RawView, int), IppError>(e),
        }),
{
    let n = buf.len();
    if i >= n || n - i < 2 {
        return Err(IppError::Io);
    }
    let nl = read_u16_be(buf, i) as usize;
    if nl > 32767 {
        return Err(IppError::Protocol);
    }
    if n - (i + 2) < nl {
        return Err(IppError::Io);
    }
    let name_bytes = copy_bytes(buf, i + 2, nl);
    let name = match string_from_utf8(name_bytes) {
        Some(s) => s,
        None => {
            return Err(IppError::ValueFormat);
        },
    };
    let j = i + 2 + nl;
    if n - j < 2 {
        return Err(IppError::Io);
    }
    let vl = read_u16_be(buf, j) as usize;
    if vl > 32767 {
        return Err(IppError::Protocol);
    }
    if n - (j + 2) < vl {
        return Err(IppError::Io);
    }
    let payload = copy_bytes(buf, j + 2, vl);
    match AttributeValue::decode_value(tag, payload) {
        Ok(v) => Ok((name, v, j + 2 + vl)),
        Err(e) => Err(e),
    }
}

/// The group being read, as the spec sees it.
pub open spec fn cur_state(
    cur_open: bool,
    cur_tag: DelimiterOrValueTag,
    done: Seq<(String, AttributeValue)>,
    stack: Seq<FrameBuild>,
) -> Option<(DelimiterOrValueTag, StructState)> {
    if cur_open {
        Some((cur_tag, StructState { done: members_view(done), stack: frames_view(stack) }))
    } else {
        None
    }
}

/// Parse a whole message, exactly as [`spec_parse_message`] describes.
fn parse_message(buf: &Vec<u8>) -> (r: Result<
    (i8, i8, i16, i32, Vec<(DelimiterOrValueTag, Vec<(String, AttributeValue)>)>, Vec<u8>),
    IppError,
>)
    ensures
        (match r {
            Ok(m) => spec_parse_message(buf@) matches Ok(sm) && sm.0 == m.0 && sm.1 == m.1 && sm.2
                == m.2 && sm.3 == m.3 && sm.4 == groups_view(m.4@) && sm.5 == m.5@,
            Err(e) => spec_parse_message(buf@) == Err::<
                (i8, i8, i16, i32, GroupsView, Seq<u8>),
                IppError,
            >(e),
        }),
{
    let n = buf.len();
    if n < 8 {
        return Err(IppError::Io);
    }
    let vmaj = buf[0] as i8;
    let vmin = buf[1] as i8;
    let code = read_i16_be(buf, 2);
    let rid = read_i32_be(buf, 4);
    let mut groups: Vec<(DelimiterOrValueTag, Vec<(String, AttributeValue)>)> = Vec::new();
    let mut done: Vec<(String, AttributeValue)> = Vec::new();
    let mut stack: Vec<FrameBuild> = Vec::new();
    let mut cur_tag = DelimiterOrValueTag::OperationAttributesTag;
    let mut cur_open = false;
    let mut i: usize = 8;
    let mut finished = false;
    let mut end_pos: usize = 0;
    proof {
        assert(members_view(Seq::<(String, AttributeValue)>::empty()) =~= Seq::<
            (Seq<char>, ValueView),
        >::empty());
        assert(frames_view(Seq::<FrameBuild>::empty()) =~= Seq::<Frame>::empty());
        assert(groups_view(Seq::<(DelimiterOrValueTag, Vec<(String, AttributeValue)>)>::empty())
            =~= Seq::<(DelimiterOrValueTag, Seq<(Seq<char>, ValueView)>)>::empty());
    }
    while !finished
        invariant
            n == buf@.len(),
            i <= n,
            !cur_open ==> done@.len() == 0 && stack@.len() == 0,
            !finished ==> spec_parse_groups(
                buf@,
                i as int,
                cur_state(cur_open, cur_tag, done@, stack@),
                groups_view(groups@),
            ) == spec_parse_groups(buf@, 8, None, Seq::empty()),
            finished ==> spec_parse_groups(buf@, 8, None, Seq::empty()) == Ok::<
                (GroupsView, int),
                IppError,
            >((groups_view(groups@), end_pos as int)),
            finished ==> end_pos <= n,
        decreases
            (if finished {
                0int
            } else {
                1int
            }),
            n - i,
    {
        let ghost groups0 = groups@;
        let ghost done0 = done@;
        let ghost stack0 = stack@;
        let ghost cur0 = cur_state(cur_open, cur_tag, done@, stack@);
        if i >= n {
            return Err(IppError::Io);
        }
        let b = buf[i];
        if crate::is_delimiter_byte(b) {
            let t = match DelimiterOrValueTag::from_byte(b) {
                Ok(t) => t,
                Err(e) => {
                    return Err(e);
                },
            };
            let ghost old_cur_tag = cur_tag;
            if cur_open {
                if stack.len() > 0 {
                    return Err(IppError::Protocol);
                }
                let mut finished_attrs: Vec<(String, AttributeValue)> = Vec::new();
                core::mem::swap(&mut done, &mut finished_attrs);
                groups.push((cur_tag, finished_attrs));
                cur_open = false;
                proof {
                    assert(groups_view(groups@) =~= groups_view(groups0).push(
                        (old_cur_tag, members_view(done0)),
                    ));
                    assert(members_view(done@) =~= Seq::<(Seq<char>, ValueView)>::empty());
                }
            }
            proof {
                assert(finish_group(cur0, groups_view(groups0)) == Ok::<GroupsView, IppError>(
                    groups_view(groups@),
                ));
            }
            if t.to_byte() == 0x03 {
                finished = true;
                end_pos = i + 1;
                proof {
                    assert(t == DelimiterOrValueTag::EndOfAttributesTag);
                }
            } else {
                cur_tag = t;
                cur_open = true;
                proof {
                    assert(t != DelimiterOrValueTag::EndOfAttributesTag);
                    assert(members_view(done@) =~= Seq::<(Seq<char>, ValueView)>::empty());
                    assert(frames_view(stack@) =~= Seq::<Frame>::empty());
                    assert(cur_state(cur_open, cur_tag, done@, stack@) == Some(
                        (t, struct_init()),
                    ));
                }
            }
            i = i + 1;
        } else {
            if !cur_open {
                return Err(IppError::Protocol);
            }
            let parsed = match parse_attr(buf, i + 1, b) {
                Ok(x) => x,
                Err(e) => {
                    return Err(e);
                },
            };
            let (aname, aval, next) = parsed;
            let ghost raw = RawView { name: aname@, value: aval@ };
            match structure_step(&mut done, &mut stack, aname, aval) {
                Ok(_) => {},
                Err(e) => {
                    return Err(e);
                },
            }
            proof {
                assert(spec_parse_attr(buf@, i as int + 1, b) matches Ok(p) && p.0 == raw && p.1
                    == next as int);
            }
            i = next;
        }
    }
    let data = copy_bytes(buf, end_pos, n - end_pos);
    proof {
        assert(data@ =~= buf@.skip(end_pos as int));
    }
    Ok((vmaj, vmin, code, rid, groups, data))
}

impl IPPRequest {
    /// Read a request back from its wire form, exactly as
    /// [`spec_parse_request`] describes: the fixed header, the groups with
    /// collections rebuilt and additional-values runs coalesced into
    /// vectors, and the trailing document data.
    pub fn read_from_stream(buf: &Vec<u8>) -> (r: Result<IPPRequest, IppError>)
        ensures
            (match r {
                Ok(req) => spec_parse_request(buf@) matches Ok(rv) && req@ == rv,
                Err(e) => spec_parse_request(buf@) == Err::<RequestView, IppError>(e),
            }),
    {
        let m = match parse_message(buf) {
            Ok(m) => m,
            Err(e) => {
                return Err(e);
            },
        };
        let (vmaj, vmin, code, rid, groups, data) = m;
        let op = match PrinterOperation::from_code(code) {
            Ok(op) => op,
            Err(e) => {
                return Err(e);
            },
        };
        Ok(
            IPPRequest {
                version_major: vmaj,
                version_minor: vmin,
                operation_id: op,
                request_id: rid,
                attrs: groups,
                data,
            },
        )
    }
}

impl IPPResponse {
    /// Read a response back from its wire form, exactly as
    /// [`spec_parse_response`] describes.
    pub fn read_from_stream(buf: &Vec<u8>) -> (r: Result<IPPResponse, IppError>)
        ensures
            (match r {
                Ok(resp) => spec_parse_response(buf@) matches Ok(rv) && resp@ == rv,
                Err(e) => spec_parse_response(buf@) == Err::<ResponseView, IppError>(e),
            }),
    {
        let m = match parse_message(buf) {
            Ok(m) => m,
            Err(e) => {
                return Err(e);
            },
        };
        let (vmaj, vmin, code, rid, groups, data) = m;
        let st = match StatusCode::from_code(code) {
            Ok(st) => st,
            Err(e) => {
                return Err(e);
            },
        };
        Ok(
            IPPResponse {
                version_major: vmaj,
                version_minor: vmin,
                status_code: st,
                request_id: rid,
                attrs: groups,
                data,
            },
        )
    }
}

/// Parsing the bytes of one conforming raw attribute yields it back,
/// consuming exactly its bytes.
proof fn lemma_parse_raw(bytes: Seq<u8>, p: int, a: RawView)
    requires
        raw_ok(a),
        0 <= p,
        p + spec_raw_bytes(a).len() <= bytes.len(),
        bytes.subrange(p, p + spec_raw_bytes(a).len() as int) == spec_raw_bytes(a),
    ensures
        bytes[p] == crate::values::spec_value_tag(a.value),
        spec_parse_attr(bytes, p + 1, bytes[p]) == Ok::<(RawView, int), IppError>(
            (a, p + spec_raw_bytes(a).len()),
        ),
{
    let rb = spec_raw_bytes(a);
    let nb = utf8(a.name);
    let pb = crate::values::spec_payload_bytes(a.value);
    let nl = nb.len() as int;
    let vl = pb.len() as int;
    lemma_payload_len(a.value);
    assert(rb.len() == 5 + nl + vl);
    assert forall|k: int| 0 <= k < rb.len() implies bytes[p + k] == rb[k] by {
        assert(bytes.subrange(p, p + rb.len() as int)[k] == bytes[p + k]);
    }
    crate::wire::lemma_be16_round_trip(nl as u16);
    crate::wire::lemma_be16_round_trip(vl as u16);
    assert(rb[0] == crate::values::spec_value_tag(a.value));
    assert(rb[1] == crate::wire::be16(nl as u16)[0] && rb[2] == crate::wire::be16(nl as u16)[1]);
    assert(u16_of_be(bytes[p + 1], bytes[p + 2]) as int == nl);
    let seg1 = seq![crate::values::spec_value_tag(a.value)];
    let seg2 = crate::wire::be16(nl as u16);
    let seg4 = crate::wire::be16(vl as u16);
    assert(rb == seg1 + seg2 + nb + seg4 + pb);
    assert(bytes.subrange(p + 3, p + 3 + nl) =~= nb) by {
        assert forall|x: int| 0 <= x < nl implies bytes.subrange(p + 3, p + 3 + nl)[x] == nb[
            x
        ] by {
            assert(bytes[p + 3 + x] == rb[3 + x]);
            assert(((seg1 + seg2 + nb) + seg4 + pb)[3 + x] == (seg1 + seg2 + nb)[3 + x]);
            assert((seg1 + seg2 + nb)[3 + x] == nb[x]);
        }
    }
    crate::values::lemma_utf8_round_trip(a.name);
    let j = p + 3 + nl;
    assert(rb[3 + nl] == crate::wire::be16(vl as u16)[0] && rb[4 + nl] == crate::wire::be16(
        vl as u16,
    )[1]) by {
        assert(((seg1 + seg2 + nb + seg4) + pb)[3 + nl] == (seg1 + seg2 + nb + seg4)[3 + nl]);
        assert((seg1 + seg2 + nb + seg4)[3 + nl] == seg4[0]);
        assert(((seg1 + seg2 + nb + seg4) + pb)[4 + nl] == (seg1 + seg2 + nb + seg4)[4 + nl]);
        assert((seg1 + seg2 + nb + seg4)[4 + nl] == seg4[1]);
    }
    assert(u16_of_be(bytes[j], bytes[j + 1]) as int == vl);
    assert(bytes.subrange(j + 2, j + 2 + vl) =~= pb) by {
        assert forall|x: int| 0 <= x < vl implies bytes.subrange(j + 2, j + 2 + vl)[x] == pb[
            x
        ] by {
            assert(bytes[j + 2 + x] == rb[5 + nl + x]);
            assert(((seg1 + seg2 + nb + seg4) + pb)[5 + nl + x] == pb[x]);
        }
    }
    crate::values::lemma_prim_round_trip(a.value);
}

/// Parsing the bytes of a conforming raw attribute run, inside an open
/// group, runs exactly those raw attributes through the structuring pass
/// and continues after them.
proof fn lemma_parse_raw_run(
    bytes: Seq<u8>,
    p: int,
    rs: Seq<RawView>,
    t: DelimiterOrValueTag,
    st: StructState,
    gs: GroupsView,
)
    requires
        raws_ok(rs, 0),
        0 <= p,
        p + raws_bytes(rs, 0).len() <= bytes.len(),
        bytes.subrange(p, p + raws_bytes(rs, 0).len() as int) == raws_bytes(rs, 0),
    ensures
        spec_parse_groups(bytes, p, Some((t, st)), gs) == (match spec_structure_fold(st, rs, 0) {
            Err(e) => Err::<(GroupsView, int), IppError>(e),
            Ok(st2) => spec_parse_groups(
                bytes,
                p + raws_bytes(rs, 0).len(),
                Some((t, st2)),
                gs,
            ),
        }),
    decreases rs.len(),
{
    if rs.len() == 0 {
        assert(raws_bytes(rs, 0) == Seq::<u8>::empty());
    } else {
        let a = rs[0];
        let arb = spec_raw_bytes(a);
        let restb = raws_bytes(rs, 1);
        assert(raws_bytes(rs, 0) == arb + restb);
        lemma_payload_len(a.value);
        assert(bytes.subrange(p, p + arb.len() as int) =~= arb) by {
            assert forall|k: int| 0 <= k < arb.len() implies bytes.subrange(
                p,
                p + arb.len() as int,
            )[k] == arb[k] by {
                assert(bytes.subrange(p, p + raws_bytes(rs, 0).len() as int)[k] == bytes[p + k]);
                assert((arb + restb)[k] == arb[k]);
            }
        }
        lemma_parse_raw(bytes, p, a);
        lemma_value_tag_not_delimiter(a.value);
        let p2 = p + arb.len() as int;
        match spec_structure_step(st, a) {
            Err(e) => {},
            Ok(st1) => {
                lemma_raws_bytes_skip(rs, 1);
                lemma_raws_ok_skip(rs, 1);
                assert(bytes.subrange(p2, p2 + restb.len() as int) =~= restb) by {
                    assert forall|k: int| 0 <= k < restb.len() implies bytes.subrange(
                        p2,
                        p2 + restb.len() as int,
                    )[k] == restb[k] by {
                        assert(bytes.subrange(p, p + raws_bytes(rs, 0).len() as int)[arb.len()
                            + k] == bytes[p2 + k]);
                        assert((arb + restb)[arb.len() + k] == restb[k]);
                    }
                }
                lemma_parse_raw_run(bytes, p2, rs.skip(1), t, st1, gs);
                lemma_fold_skip(st1, rs, 1);
            },
        }
    }
}

/// One group's attribute bytes are the serialisation of its flattening.
proof fn lemma_attrs_bytes_is_flatten(attrs: Seq<(Seq<char>, ValueView)>, j: int)
    requires
        0 <= j <= attrs.len(),
    ensures
        attrs_bytes(attrs, j) == raws_bytes(flatten_group(attrs, j), 0),
    decreases attrs.len() - j,
{
    if j < attrs.len() {
        lemma_attrs_bytes_is_flatten(attrs, j + 1);
        lemma_raws_bytes_concat(
            flatten_attr(attrs[j].0, attrs[j].1),
            flatten_group(attrs, j + 1),
        );
    }
}

/// Parsing the serialisation of conforming groups, followed by the
/// end-of-attributes tag, rebuilds exactly those groups.
#[verifier::rlimit(100)]
proof fn lemma_parse_groups_chain(
    bytes: Seq<u8>,
    p: int,
    gs: GroupsView,
    k: int,
    cur: Option<(DelimiterOrValueTag, StructState)>,
    acc: GroupsView,
)
    requires
        groups_ok(gs, k),
        0 <= k <= gs.len(),
        0 <= p,
        p + groups_bytes(gs, k).len() + 1 <= bytes.len(),
        bytes.subrange(p, p + groups_bytes(gs, k).len() as int) == groups_bytes(gs, k),
        bytes[p + groups_bytes(gs, k).len()] == 0x03,
        (cur matches Some(c) ==> c.1.stack.len() == 0),
    ensures
        finish_group(cur, acc) matches Ok(facc) && spec_parse_groups(bytes, p, cur, acc) == Ok::<
            (GroupsView, int),
            IppError,
        >((facc + gs.skip(k), p + groups_bytes(gs, k).len() + 1)),
    decreases gs.len() - k,
{
    let facc = finish_group(cur, acc).unwrap();
    if k == gs.len() {
        assert(groups_bytes(gs, k) == Seq::<u8>::empty());
        assert(spec_tag_from_byte(0x03) == Some(DelimiterOrValueTag::EndOfAttributesTag));
        assert(facc + gs.skip(k) =~= facc);
    } else {
        let t = gs[k].0;
        let attrs = gs[k].1;
        let ab = attrs_bytes(attrs, 0);
        let gb_rest = groups_bytes(gs, k + 1);
        let gb = groups_bytes(gs, k);
        assert(gb == seq![tag_code(t)] + ab + gb_rest);
        assert forall|x: int| 0 <= x < gb.len() implies bytes[p + x] == gb[x] by {
            assert(bytes.subrange(p, p + gb.len() as int)[x] == bytes[p + x]);
        }
        assert(bytes[p] == gb[0]);
        assert(gb[0] == tag_code(t)) by {
            assert(((seq![tag_code(t)] + ab) + gb_rest)[0] == (seq![tag_code(t)] + ab)[0]);
            assert((seq![tag_code(t)] + ab)[0] == tag_code(t));
        }
        crate::tags::lemma_tag_round_trip();
        let rsg = flatten_group(attrs, 0);
        lemma_attrs_bytes_is_flatten(attrs, 0);
        lemma_flatten_group_raws_ok(attrs, 0);
        let p1 = p + 1;
        assert(bytes.subrange(p1, p1 + ab.len() as int) =~= raws_bytes(rsg, 0)) by {
            assert forall|x: int| 0 <= x < ab.len() implies bytes.subrange(
                p1,
                p1 + ab.len() as int,
            )[x] == ab[x] by {
                assert((seq![tag_code(t)] + ab + gb_rest)[1 + x] == ab[x]);
            }
        }
        lemma_parse_raw_run(bytes, p1, rsg, t, struct_init(), facc);
        lemma_structure_inverts_flatten(attrs);
        let st2 = StructState { done: attrs, stack: Seq::empty() };
        let p2 = p1 + ab.len() as int;
        assert(bytes.subrange(p2, p2 + gb_rest.len() as int) =~= gb_rest) by {
            assert forall|x: int| 0 <= x < gb_rest.len() implies bytes.subrange(
                p2,
                p2 + gb_rest.len() as int,
            )[x] == gb_rest[x] by {
                assert((seq![tag_code(t)] + ab + gb_rest)[1 + ab.len() + x] == gb_rest[x]);
            }
        }
        assert(bytes[p2 + gb_rest.len()] == 0x03);
        lemma_parse_groups_chain(bytes, p2, gs, k + 1, Some((t, st2)), facc);
        assert(facc.push((t, attrs)) + gs.skip(k + 1) =~= facc + gs.skip(k)) by {
            assert((t, attrs) == gs[k]);
        }
    }
}

/// IPP round trip for requests: for every request whose attribute values
/// conform, decoding its encoding reconstructs the request exactly — with
/// collections reassembled and additional-values runs already standing as
/// vectors in the model on both sides.
pub proof fn lemma_request_round_trip(r: RequestView)
    requires
        request_ok(r),
    ensures
        spec_parse_request(spec_request_bytes(r)) == Ok::<RequestView, IppError>(r),
{
    let bytes = spec_request_bytes(r);
    let gb = groups_bytes(r.attrs, 0);
    let code = operation_code(r.operation_id);
    let head = seq![r.version_major as u8, r.version_minor as u8] + be16i(code) + be32i(
        r.request_id,
    );
    assert(head.len() == 8);
    assert(bytes =~= head + gb + seq![0x03u8] + r.data);
    assert(bytes.len() == 8 + gb.len() + 1 + r.data.len());
    crate::wire::lemma_i8_u8_round_trip(r.version_major);
    crate::wire::lemma_i8_u8_round_trip(r.version_minor);
    assert(bytes[0] == (r.version_major as u8) && bytes[1] == (r.version_minor as u8));
    crate::wire::lemma_be16_round_trip(code as u16);
    crate::wire::lemma_i16_u16_round_trip(code);
    assert(bytes[2] == crate::wire::be16(code as u16)[0] && bytes[3] == crate::wire::be16(code as u16)[1]);
    assert(u16_of_be(bytes[2], bytes[3]) as i16 == code);
    crate::wire::lemma_be32_round_trip(r.request_id as u32);
    crate::wire::lemma_i32_u32_round_trip(r.request_id);
    assert(bytes[4] == crate::wire::be32(r.request_id as u32)[0] && bytes[5] == crate::wire::be32(
        r.request_id as u32,
    )[1] && bytes[6] == crate::wire::be32(r.request_id as u32)[2] && bytes[7] == crate::wire::be32(
        r.request_id as u32,
    )[3]);
    assert(u32_of_be(bytes[4], bytes[5], bytes[6], bytes[7]) as i32 == r.request_id);
    assert(bytes.subrange(8, 8 + gb.len() as int) =~= gb);
    assert(bytes[8 + gb.len() as int] == 0x03);
    lemma_parse_groups_chain(bytes, 8, r.attrs, 0, None, Seq::empty());
    assert(Seq::<(DelimiterOrValueTag, Seq<(Seq<char>, ValueView)>)>::empty() + r.attrs.skip(0)
        =~= r.attrs);
    assert(bytes.skip(8 + gb.len() as int + 1) =~= r.data);
    crate::tags::lemma_operation_round_trip();
    assert(spec_parse_request(bytes) matches Ok(rv) && rv == r);
}

/// IPP round trip for responses: the same statement with the status code
/// in place of the operation.
pub proof fn lemma_response_round_trip(r: ResponseView)
    requires
        response_ok(r),
    ensures
        spec_parse_response(spec_response_bytes(r)) == Ok::<ResponseView, IppError>(r),
{
    let bytes = spec_response_bytes(r);
    let gb = groups_bytes(r.attrs, 0);
    let code = status_code(r.status_code);
    let head = seq![r.version_major as u8, r.version_minor as u8] + be16i(code) + be32i(
        r.request_id,
    );
    assert(head.len() == 8);
    assert(bytes =~= head + gb + seq![0x03u8] + r.data);
    assert(bytes.len() == 8 + gb.len() + 1 + r.data.len());
    crate::wire::lemma_i8_u8_round_trip(r.version_major);
    crate::wire::lemma_i8_u8_round_trip(r.version_minor);
    assert(bytes[0] == (r.version_major as u8) && bytes[1] == (r.version_minor as u8));
    crate::wire::lemma_be16_round_trip(code as u16);
    crate::wire::lemma_i16_u16_round_trip(code);
    assert(bytes[2] == crate::wire::be16(code as u16)[0] && bytes[3] == crate::wire::be16(code as u16)[1]);
    assert(u16_of_be(bytes[2], bytes[3]) as i16 == code);
    crate::wire::lemma_be32_round_trip(r.request_id as u32);
    crate::wire::lemma_i32_u32_round_trip(r.request_id);
    assert(bytes[4] == crate::wire::be32(r.request_id as u32)[0] && bytes[5] == crate::wire::be32(
        r.request_id as u32,
    )[1] && bytes[6] == crate::wire::be32(r.request_id as u32)[2] && bytes[7] == crate::wire::be32(
        r.request_id as u32,
    )[3]);
    assert(u32_of_be(bytes[4], bytes[5], bytes[6], bytes[7]) as i32 == r.request_id);
    assert(bytes.subrange(8, 8 + gb.len() as int) =~= gb);
    assert(bytes[8 + gb.len() as int] == 0x03);
    lemma_parse_groups_chain(bytes, 8, r.attrs, 0, None, Seq::empty());
    assert(Seq::<(DelimiterOrValueTag, Seq<(Seq<char>, ValueView)>)>::empty() + r.attrs.skip(0)
        =~= r.attrs);
    assert(bytes.skip(8 + gb.len() as int + 1) =~= r.data);
    crate::tags::lemma_status_round_trip();
    assert(spec_parse_response(bytes) matches Ok(rv) && rv == r);
}

} // verus!
