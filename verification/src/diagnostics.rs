use crate::parser::Parsed;
use crate::syntax::LexedStr;
use crate::text::byte_len;
use vstd::prelude::*;
use vstd::string::StringSliceAdditionalSpecFns;

verus! {

/// An error as it is shown: the message, and the bytes of the text that it
/// points at.
#[derive(Debug, Clone, PartialEq, Eq)]
pub struct Report {
    pub message: String,
    pub start: usize,
    pub end: usize,
}

/// The message under which the end of the text is reported where a token was
/// expected.
pub open spec fn eof_message() -> Seq<char> {
    "unexpected end of file"@
}

/// One report for each lexical error, in their order: the message of its
/// kind, at the bytes of its token.
pub fn lexical_reports(lexed: &LexedStr<'_>) -> (reports: Vec<Report>)
    requires
        lexed.wf(),
    ensures
        reports@.len() == lexed.found().len(),
        forall|i: int|
            0 <= i < reports@.len() ==> {
                let error = lexed.found()[i];
                let report = #[trigger] reports@[i];
                &&& report.message@ == error.kind.text()
                &&& report.start == lexed.starts()[error.token_idx.0 as int]
                &&& report.end == lexed.starts()[error.token_idx.0 + 1]
            },
{
    let errors = lexed.errors();
    let mut reports: Vec<Report> = Vec::new();
    let mut i: usize = 0;
    while i < errors.len()
        invariant
            lexed.wf(),
            i <= errors.len(),
            errors@ == lexed.found(),
            reports@.len() == i,
            forall|k: int|
                0 <= k < i ==> {
                    let error = lexed.found()[k];
                    let report = #[trigger] reports@[k];
                    &&& report.message@ == error.kind.text()
                    &&& report.start == lexed.starts()[error.token_idx.0 as int]
                    &&& report.end == lexed.starts()[error.token_idx.0 + 1]
                },
        decreases errors.len() - i,
    {
        let error = &errors[i];
        assert(lexed.found()[i as int].token_idx.0 < lexed.count());
        let range = lexed.token_range(error.token_idx);
        reports.push(Report { message: error.kind.to_string(), start: range.start, end: range.end });
        i += 1;
    }
    reports
}

/// One report for each syntactic error, in their order: its message, at the
/// bytes of its token. An error at the end of the text points at the empty
/// range there.
pub fn syntax_reports(lexed: &LexedStr<'_>, parsed: &Parsed) -> (reports: Vec<Report>)
    requires
        lexed.wf(),
        forall|i: int|
            0 <= i < parsed.errors@.len() ==> (#[trigger] parsed.errors@[i]).token_idx.0
                <= lexed.count(),
    ensures
        reports@.len() == parsed.errors@.len(),
        forall|i: int|
            0 <= i < reports@.len() ==> {
                let error = parsed.errors@[i];
                let report = #[trigger] reports@[i];
                &&& report.message@ == error.message@
                &&& report.start == lexed.starts()[error.token_idx.0 as int]
                &&& report.end == lexed.starts()[error.token_idx.0 + 1]
            },
{
    let mut reports: Vec<Report> = Vec::new();
    let mut i: usize = 0;
    while i < parsed.errors.len()
        invariant
            lexed.wf(),
            i <= parsed.errors.len(),
            forall|k: int|
                0 <= k < parsed.errors@.len() ==> (#[trigger] parsed.errors@[k]).token_idx.0
                    <= lexed.count(),
            reports@.len() == i,
            forall|k: int|
                0 <= k < i ==> {
                    let error = parsed.errors@[k];
                    let report = #[trigger] reports@[k];
                    &&& report.message@ == error.message@
                    &&& report.start == lexed.starts()[error.token_idx.0 as int]
                    &&& report.end == lexed.starts()[error.token_idx.0 + 1]
                },
        decreases parsed.errors.len() - i,
    {
        let error = &parsed.errors[i];
        let range = lexed.token_range(error.token_idx);
        reports.push(Report { message: error.to_string(), start: range.start, end: range.end });
        i += 1;
    }
    reports
}

/// The report of an input that ended where a token was expected, if it did:
/// an empty range at the last byte of the text, or at its start where the
/// text is empty.
pub fn eof_report(lexed: &LexedStr<'_>, parsed: &Parsed) -> (report: Option<Report>)
    ensures
        report.is_some() == parsed.unexpected_eof,
        report.is_some() ==> {
            let at = if byte_len(lexed.source()) == 0 {
                0
            } else {
                byte_len(lexed.source()) - 1
            };
            &&& report.unwrap().message@ == eof_message()
            &&& report.unwrap().start == at
            &&& report.unwrap().end == at
        },
{
    if parsed.unexpected_eof {
        let len = lexed.source_len();
        let at = if len == 0 {
            0
        } else {
            len - 1
        };
        Some(Report { message: "unexpected end of file".to_owned(), start: at, end: at })
    } else {
        None
    }
}

} // verus!
