//! The print-job submission sequence: Get-Printer-Attributes, Validate-Job,
//! Create-Job, Send-Document, Get-Jobs, one IPP exchange per step, all at
//! version 1.1 against a single printer URI. The decisions live here — which
//! request each step sends, and how the job id is pulled out of the
//! Create-Job response; performing the HTTP exchanges is the caller's part.
use vstd::prelude::*;

use crate::error::IppError;
use crate::message::{IPPRequest, IPPResponse, RequestView};
use crate::tags::{DelimiterOrValueTag, PrinterOperation};
use crate::values::{members_view, AttributeValue, ValueView};

verus! {

/// The baseline operation attributes every request carries.
pub open spec fn spec_base_attrs(uri: Seq<char>, lang: Seq<char>) -> Seq<(Seq<char>, ValueView)> {
    seq![
        ("attributes-charset"@, ValueView::Charset("utf-8"@)),
        ("attributes-natural-language"@, ValueView::NaturalLanguage(lang)),
        ("printer-uri"@, ValueView::Uri(uri)),
    ]
}

/// The attributes of a job-scoped request: the baseline plus the
/// requesting user's name.
pub open spec fn spec_job_attrs(uri: Seq<char>, lang: Seq<char>, user: Seq<char>) -> Seq<
    (Seq<char>, ValueView),
> {
    spec_base_attrs(uri, lang).push(("requesting-user-name"@, ValueView::NameWithoutLanguage(user)))
}

/// The attributes of a Validate-Job request: job attributes plus the
/// document format to be validated.
pub open spec fn spec_validate_attrs(uri: Seq<char>, lang: Seq<char>, user: Seq<char>) -> Seq<
    (Seq<char>, ValueView),
> {
    spec_job_attrs(uri, lang, user).push(
        ("document-format"@, ValueView::MimeMediaType("image/pwg-raster"@)),
    )
}

/// The attributes of a Send-Document request: the baseline, the job id the
/// printer assigned, the user, the document format, and the last-document
/// flag.
pub open spec fn spec_send_document_attrs(
    uri: Seq<char>,
    lang: Seq<char>,
    user: Seq<char>,
    job_id: i32,
) -> Seq<(Seq<char>, ValueView)> {
    spec_base_attrs(uri, lang).push(("job-id"@, ValueView::Integer(job_id))).push(
        ("requesting-user-name"@, ValueView::NameWithoutLanguage(user)),
    ).push(("document-format"@, ValueView::MimeMediaType("image/pwg-raster"@))).push(
        ("last-document"@, ValueView::Boolean(true)),
    )
}

/// A version 1.1 request with a single Operation-Attributes group.
pub open spec fn spec_job_request(
    op: PrinterOperation,
    request_id: i32,
    attrs: Seq<(Seq<char>, ValueView)>,
    data: Seq<u8>,
) -> RequestView {
    RequestView {
        version_major: 1,
        version_minor: 1,
        operation_id: op,
        request_id,
        attrs: seq![(DelimiterOrValueTag::OperationAttributesTag, attrs)],
        data,
    }
}

/// Build the baseline operation attributes.
fn base_operation_attrs(printer_uri: &String, natural_language: &String) -> (r: Vec<
    (String, AttributeValue),
>)
    ensures
        members_view(r@) == spec_base_attrs(printer_uri@, natural_language@),
{
    let mut attrs: Vec<(String, AttributeValue)> = Vec::new();
    attrs.push(
        ("attributes-charset".to_owned(), AttributeValue::Charset("utf-8".to_owned())),
    );
    attrs.push(
        (
            "attributes-natural-language".to_owned(),
            AttributeValue::NaturalLanguage(natural_language.clone()),
        ),
    );
    attrs.push(("printer-uri".to_owned(), AttributeValue::Uri(printer_uri.clone())));
    proof {
        assert(members_view(attrs@) =~= spec_base_attrs(printer_uri@, natural_language@));
    }
    attrs
}

/// Wrap one Operation-Attributes group and fixed version 1.1 headers
/// around an attribute list.
fn wrap_request(
    op: PrinterOperation,
    request_id: i32,
    attrs: Vec<(String, AttributeValue)>,
    data: Vec<u8>,
) -> (r: IPPRequest)
    ensures
        r@ == spec_job_request(op, request_id, members_view(attrs@), data@),
{
    let mut groups: Vec<(DelimiterOrValueTag, Vec<(String, AttributeValue)>)> = Vec::new();
    groups.push((DelimiterOrValueTag::OperationAttributesTag, attrs));
    let r = IPPRequest {
        version_major: 1,
        version_minor: 1,
        operation_id: op,
        request_id,
        attrs: groups,
        data,
    };
    proof {
        assert(r@.attrs =~= spec_job_request(
            op,
            request_id,
            members_view(r.attrs@[0].1@),
            r.data@,
        ).attrs);
    }
    r
}

/// The Get-Printer-Attributes request that opens the sequence.
pub fn build_get_printer_attributes(printer_uri: &String, natural_language: &String) -> (r:
    IPPRequest)
    ensures
        r@ == spec_job_request(
            PrinterOperation::GetPrinterAttributes,
            1,
            spec_base_attrs(printer_uri@, natural_language@),
            Seq::empty(),
        ),
{
    let attrs = base_operation_attrs(printer_uri, natural_language);
    let r = wrap_request(PrinterOperation::GetPrinterAttributes, 1, attrs, Vec::new());
    proof {
        assert(Seq::<u8>::empty() =~= r.data@);
    }
    r
}

/// Append the requesting user's name.
fn push_user(attrs: &mut Vec<(String, AttributeValue)>, user: &String)
    ensures
        members_view(final(attrs)@) == members_view(old(attrs)@).push(
            ("requesting-user-name"@, ValueView::NameWithoutLanguage(user@)),
        ),
{
    let ghost before = attrs@;
    attrs.push(("requesting-user-name".to_owned(), AttributeValue::NameWithoutLanguage(user.clone())));
    proof {
        assert(members_view(attrs@) =~= members_view(before).push(
            ("requesting-user-name"@, ValueView::NameWithoutLanguage(user@)),
        ));
    }
}

/// Append the PWG-Raster document format.
fn push_document_format(attrs: &mut Vec<(String, AttributeValue)>)
    ensures
        members_view(final(attrs)@) == members_view(old(attrs)@).push(
            ("document-format"@, ValueView::MimeMediaType("image/pwg-raster"@)),
        ),
{
    let ghost before = attrs@;
    attrs.push(
        ("document-format".to_owned(), AttributeValue::MimeMediaType("image/pwg-raster".to_owned())),
    );
    proof {
        assert(members_view(attrs@) =~= members_view(before).push(
            ("document-format"@, ValueView::MimeMediaType("image/pwg-raster"@)),
        ));
    }
}

/// The Validate-Job request: the job's attributes, validated before any
/// job is created.
pub fn build_validate_job(printer_uri: &String, natural_language: &String, user: &String) -> (r:
    IPPRequest)
    ensures
        r@ == spec_job_request(
            PrinterOperation::ValidateJob,
            2,
            spec_validate_attrs(printer_uri@, natural_language@, user@),
            Seq::empty(),
        ),
{
    let mut attrs = base_operation_attrs(printer_uri, natural_language);
    push_user(&mut attrs, user);
    push_document_format(&mut attrs);
    let r = wrap_request(PrinterOperation::ValidateJob, 2, attrs, Vec::new());
    proof {
        assert(Seq::<u8>::empty() =~= r.data@);
    }
    r
}

/// The Create-Job request.
pub fn build_create_job(printer_uri: &String, natural_language: &String, user: &String) -> (r:
    IPPRequest)
    ensures
        r@ == spec_job_request(
            PrinterOperation::CreateJob,
            2,
            spec_job_attrs(printer_uri@, natural_language@, user@),
            Seq::empty(),
        ),
{
    let mut attrs = base_operation_attrs(printer_uri, natural_language);
    push_user(&mut attrs, user);
    let r = wrap_request(PrinterOperation::CreateJob, 2, attrs, Vec::new());
    proof {
        assert(Seq::<u8>::empty() =~= r.data@);
    }
    r
}

/// The Send-Document request: carries the raster document as trailing data.
pub fn build_send_document(
    printer_uri: &String,
    natural_language: &String,
    user: &String,
    job_id: i32,
    document: Vec<u8>,
) -> (r: IPPRequest)
    ensures
        r@ == spec_job_request(
            PrinterOperation::SendDocument,
            2,
            spec_send_document_attrs(printer_uri@, natural_language@, user@, job_id),
            document@,
        ),
{
    let mut attrs = base_operation_attrs(printer_uri, natural_language);
    let ghost before = attrs@;
    attrs.push(("job-id".to_owned(), AttributeValue::Integer(job_id)));
    proof {
        assert(members_view(attrs@) =~= members_view(before).push(
            ("job-id"@, ValueView::Integer(job_id)),
        ));
    }
    push_user(&mut attrs, user);
    push_document_format(&mut attrs);
    let ghost before_last = attrs@;
    attrs.push(("last-document".to_owned(), AttributeValue::Boolean(true)));
    proof {
        assert(members_view(attrs@) =~= members_view(before_last).push(
            ("last-document"@, ValueView::Boolean(true)),
        ));
    }
    wrap_request(PrinterOperation::SendDocument, 2, attrs, document)
}

/// The closing Get-Jobs request.
pub fn build_get_jobs(printer_uri: &String, natural_language: &String, user: &String) -> (r:
    IPPRequest)
    ensures
        r@ == spec_job_request(
            PrinterOperation::GetJobs,
            2,
            spec_job_attrs(printer_uri@, natural_language@, user@),
            Seq::empty(),
        ),
{
    let mut attrs = base_operation_attrs(printer_uri, natural_language);
    push_user(&mut attrs, user);
    let r = wrap_request(PrinterOperation::GetJobs, 2, attrs, Vec::new());
    proof {
        assert(Seq::<u8>::empty() =~= r.data@);
    }
    r
}

/// The `job-id` search inside one group, first match wins: the scalar
/// integer carried under that name, a protocol error when the name is
/// missing or carries any other shape.
pub open spec fn spec_job_id_in(group: Seq<(Seq<char>, ValueView)>, i: int) -> Result<
    i32,
    IppError,
>
    decreases group.len() - i,
{
    if i < 0 || i >= group.len() {
        Err(IppError::Protocol)
    } else if group[i].0 == "job-id"@ {
        match group[i].1 {
            ValueView::Integer(v) => Ok(v),
            _ => Err(IppError::Protocol),
        }
    } else {
        spec_job_id_in(group, i + 1)
    }
}

/// What the orchestrator extracts from a Create-Job response: the `job-id`
/// integer of the second attribute group. A response with fewer than two
/// groups, or without a scalar integer `job-id` in the second, is a
/// protocol error.
pub open spec fn spec_extract_job_id(r: crate::message::ResponseView) -> Result<i32, IppError> {
    if r.attrs.len() < 2 {
        Err(IppError::Protocol)
    } else {
        spec_job_id_in(r.attrs[1].1, 0)
    }
}

/// Pull the printer-assigned job id out of a Create-Job response; see
/// [`spec_extract_job_id`].
pub fn extract_job_id(resp: &IPPResponse) -> (r: Result<i32, IppError>)
    ensures
        r == spec_extract_job_id(resp@),
{
    if resp.attrs.len() < 2 {
        return Err(IppError::Protocol);
    }
    let group = &resp.attrs[1].1;
    let needle: String = "job-id".to_owned();
    let mut i: usize = 0;
    while i < group.len()
        invariant
            i <= group@.len(),
            *group == resp.attrs@[1].1,
            resp.attrs@.len() >= 2,
            needle@ == "job-id"@,
            spec_job_id_in(members_view(group@), i as int) == spec_extract_job_id(resp@),
        decreases group@.len() - i,
    {
        let pair = &group[i];
        proof {
            assert(members_view(group@)[i as int] == (group@[i as int].0@, group@[i as int].1@));
        }
        if pair.0.eq(&needle) {
            match &pair.1 {
                AttributeValue::Integer(v) => {
                    return Ok(*v);
                },
                _ => {
                    return Err(IppError::Protocol);
                },
            }
        }
        i = i + 1;
    }
    Err(IppError::Protocol)
}

/// Where the submission sequence stands: the next operation to perform, or
/// `Done` when the closing Get-Jobs response has been handled.
#[derive(Debug, Clone, Copy, PartialEq, Eq, Structural)]
pub enum JobStep {
    GetPrinterAttributes,
    ValidateJob,
    CreateJob,
    SendDocument,
    GetJobs,
    Done,
}

/// The step each step hands over to once its response is in.
pub open spec fn spec_next_step(s: JobStep) -> JobStep {
    match s {
        JobStep::GetPrinterAttributes => JobStep::ValidateJob,
        JobStep::ValidateJob => JobStep::CreateJob,
        JobStep::CreateJob => JobStep::SendDocument,
        JobStep::SendDocument => JobStep::GetJobs,
        JobStep::GetJobs => JobStep::Done,
        JobStep::Done => JobStep::Done,
    }
}

/// The submission sequence's state: the fixed parameters of the job, the
/// current step, and the job id once Create-Job has assigned one.
#[derive(Debug)]
pub struct JobSubmission {
    pub printer_uri: String,
    pub natural_language: String,
    pub user_name: String,
    pub document: Vec<u8>,
    pub step: JobStep,
    pub job_id: Option<i32>,
}

impl JobSubmission {
    pub fn new(
        printer_uri: String,
        natural_language: String,
        user_name: String,
        document: Vec<u8>,
    ) -> (s: Self)
        ensures
            s.printer_uri == printer_uri,
            s.natural_language == natural_language,
            s.user_name == user_name,
            s.document == document,
            s.step == JobStep::GetPrinterAttributes,
            s.job_id is None,
    {
        Self {
            printer_uri,
            natural_language,
            user_name,
            document,
            step: JobStep::GetPrinterAttributes,
            job_id: None,
        }
    }

    /// The request the current step sends, or `None` once the sequence is
    /// done. `SendDocument` requires the job id settled by the Create-Job
    /// response.
    pub fn next_request(&self) -> (r: Option<IPPRequest>)
        requires
            self.step == JobStep::SendDocument ==> self.job_id is Some,
        ensures
            (match self.step {
                JobStep::GetPrinterAttributes => r matches Some(q) && q@ == spec_job_request(
                    PrinterOperation::GetPrinterAttributes,
                    1,
                    spec_base_attrs(self.printer_uri@, self.natural_language@),
                    Seq::empty(),
                ),
                JobStep::ValidateJob => r matches Some(q) && q@ == spec_job_request(
                    PrinterOperation::ValidateJob,
                    2,
                    spec_validate_attrs(
                        self.printer_uri@,
                        self.natural_language@,
                        self.user_name@,
                    ),
                    Seq::empty(),
                ),
                JobStep::CreateJob => r matches Some(q) && q@ == spec_job_request(
                    PrinterOperation::CreateJob,
                    2,
                    spec_job_attrs(self.printer_uri@, self.natural_language@, self.user_name@),
                    Seq::empty(),
                ),
                JobStep::SendDocument => r matches Some(q) && q@ == spec_job_request(
                    PrinterOperation::SendDocument,
                    2,
                    spec_send_document_attrs(
                        self.printer_uri@,
                        self.natural_language@,
                        self.user_name@,
                        self.job_id.unwrap(),
                    ),
                    self.document@,
                ),
                JobStep::GetJobs => r matches Some(q) && q@ == spec_job_request(
                    PrinterOperation::GetJobs,
                    2,
                    spec_job_attrs(self.printer_uri@, self.natural_language@, self.user_name@),
                    Seq::empty(),
                ),
                JobStep::Done => r is None,
            }),
    {
        match self.step {
            JobStep::GetPrinterAttributes => Some(
                build_get_printer_attributes(&self.printer_uri, &self.natural_language),
            ),
            JobStep::ValidateJob => Some(
                build_validate_job(&self.printer_uri, &self.natural_language, &self.user_name),
            ),
            JobStep::CreateJob => Some(
                build_create_job(&self.printer_uri, &self.natural_language, &self.user_name),
            ),
            JobStep::SendDocument => {
                let id = match self.job_id {
                    Some(id) => id,
                    None => {
                        proof {
                            assert(false);
                        }
                        vstd::pervasive::unreached()
                    },
                };
                let doc = crate::wire::copy_bytes(&self.document, 0, self.document.len());
                proof {
                    assert(doc@ =~= self.document@);
                }
                Some(
                    build_send_document(
                        &self.printer_uri,
                        &self.natural_language,
                        &self.user_name,
                        id,
                        doc,
                    ),
                )
            },
            JobStep::GetJobs => Some(
                build_get_jobs(&self.printer_uri, &self.natural_language, &self.user_name),
            ),
            JobStep::Done => None,
        }
    }

    /// Take in the response of the current step and advance. The Create-Job
    /// response must carry the job id: when it does not, the error is
    /// surfaced and the sequence does not advance.
    pub fn handle_response(&mut self, resp: &IPPResponse) -> (r: Result<(), IppError>)
        ensures
            final(self).printer_uri == old(self).printer_uri,
            final(self).natural_language == old(self).natural_language,
            final(self).user_name == old(self).user_name,
            final(self).document == old(self).document,
            (match r {
                Ok(_) => final(self).step == spec_next_step(old(self).step) && (
                if old(self).step == JobStep::CreateJob {
                    spec_extract_job_id(resp@) matches Ok(id) && final(self).job_id == Some(id)
                } else {
                    final(self).job_id == old(self).job_id
                }),
                Err(e) => old(self).step == JobStep::CreateJob && spec_extract_job_id(resp@)
                    == Err::<i32, IppError>(e) && final(self).step == old(self).step
                    && final(self).job_id == old(self).job_id,
            }),
    {
        match self.step {
            JobStep::CreateJob => {
                let id = match extract_job_id(resp) {
                    Ok(id) => id,
                    Err(e) => {
                        return Err(e);
                    },
                };
                self.job_id = Some(id);
                self.step = JobStep::SendDocument;
                Ok(())
            },
            JobStep::GetPrinterAttributes => {
                self.step = JobStep::ValidateJob;
                Ok(())
            },
            JobStep::ValidateJob => {
                self.step = JobStep::CreateJob;
                Ok(())
            },
            JobStep::SendDocument => {
                self.step = JobStep::GetJobs;
                Ok(())
            },
            JobStep::GetJobs => {
                self.step = JobStep::Done;
                Ok(())
            },
            JobStep::Done => {
                self.step = JobStep::Done;
                Ok(())
            },
        }
    }
}

} // verus!
