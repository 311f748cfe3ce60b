//! What `collectors.diff` and `collectors.document` are asked for.
use crate::daemon::rpc::collectors::{
    allowances_of, allowances_param, arms_of_document, document_arms, words_of, Allowances,
    Grouping,
};
use crate::daemon::rpc::logs::{size_given, size_param};
use crate::daemon::rpc::params::{opt_str, opt_usize, str_param};
use crate::json::{Json, JsonView};
use crate::text;
use crate::text::{optional_text, text_views};
use vstd::prelude::*;

verus! {

broadcast use vstd::string::group_string_axioms;

/// The grouping of a comparison, or `absent` where none is named. `before` and
/// `after` go around the groupings that a refusal names.
pub open spec fn compared_grouping(
    params: JsonView,
    absent: Grouping,
    before: Seq<char>,
    after: Seq<char>,
) -> Result<Grouping, Seq<char>> {
    match str_param(params, "group_by"@) {
        Err(e) => Err(e),
        Ok(None) => Ok(absent),
        Ok(Some(s)) => match Grouping::of_name(s) {
            Some(g) if g.is_compared() => Ok(g),
            _ => Err("unknown group_by `"@ + s + before + "`none`, `name` or `group`"@ + after),
        },
    }
}

fn compared_grouping_of(params: &Json, absent: Grouping, before: &str, after: &str) -> (r: Result<
    Grouping,
    String,
>)
    ensures
        match r {
            Ok(g) => compared_grouping(params@, absent, before@, after@) == Ok::<
                Grouping,
                Seq<char>,
            >(g),
            Err(e) => compared_grouping(params@, absent, before@, after@) == Err::<
                Grouping,
                Seq<char>,
            >(e@),
        },
{
    let s = match opt_str(params, "group_by") {
        Err(e) => return Err(e),
        Ok(None) => return Ok(absent),
        Ok(Some(s)) => s,
    };
    if let Some(g) = Grouping::parse(s) {
        if g.compares() {
            return Ok(g);
        }
    }
    let head = text::join3("unknown group_by `", s, before);
    Err(text::join3(&head, "`none`, `name` or `group`", after))
}

/// How two arms are compared.
#[derive(Debug, Clone, Copy, PartialEq, Eq, Structural)]
pub struct DiffOptions {
    pub group_by: Grouping,
    pub top_n: usize,
    pub allow: Allowances,
}

/// How a call of `collectors.diff` wants its arms compared.
pub open spec fn diff_request(params: JsonView) -> Result<(Grouping, nat, Allowances), Seq<char>> {
    match compared_grouping(
        params,
        Grouping::Ungrouped,
        "` for a diff: expected "@,
        ". `trace` and `path` are projected from per-span records, which a recorded run does not retain, so there is nothing to compare"@,
    ) {
        Err(e) => Err(e),
        Ok(group_by) => match size_param(params, "top_n"@) {
            Err(e) => Err(e),
            Ok(top_n) => match allowances_param(params) {
                Err(e) => Err(e),
                Ok(allow) => Ok((group_by, size_given(top_n, 20), allow)),
            },
        },
    }
}

/// Read how a call of `collectors.diff` wants its arms compared: 20 rows where
/// it does not say.
pub fn diff_options(params: &Json) -> (r: Result<DiffOptions, String>)
    ensures
        match r {
            Ok(o) => diff_request(params@) == Ok::<(Grouping, nat, Allowances), Seq<char>>(
                (o.group_by, o.top_n as nat, o.allow),
            ),
            Err(e) => diff_request(params@) == Err::<(Grouping, nat, Allowances), Seq<char>>(e@),
        },
{
    let group_by = match compared_grouping_of(
        params,
        Grouping::Ungrouped,
        "` for a diff: expected ",
        ". `trace` and `path` are projected from per-span records, which a recorded run does not retain, so there is nothing to compare",
    ) {
        Ok(g) => g,
        Err(e) => return Err(e),
    };
    let top_n: usize = match opt_usize(params, "top_n") {
        Ok(Some(n)) => n,
        Ok(None) => 20,
        Err(e) => return Err(e),
    };
    match allowances_of(params) {
        Ok(allow) => Ok(DiffOptions { group_by, top_n, allow }),
        Err(e) => Err(e),
    }
}

/// How a document is rendered.
#[derive(Debug, Clone, Copy, PartialEq, Eq, Structural)]
pub enum DocumentFormat {
    Md,
    Json,
    Folded,
}

/// The format that a document is asked for in: Markdown where none is named.
pub open spec fn format_param(params: JsonView) -> Result<DocumentFormat, Seq<char>> {
    match str_param(params, "format"@) {
        Err(e) => Err(e),
        Ok(None) => Ok(DocumentFormat::Md),
        Ok(Some(s)) => if s == "md"@ {
            Ok(DocumentFormat::Md)
        } else if s == "json"@ {
            Ok(DocumentFormat::Json)
        } else if s == "folded"@ {
            Ok(DocumentFormat::Folded)
        } else {
            Err("unknown format `"@ + s + "`: expected `md`, `json` or `folded`"@)
        },
    }
}

fn format_of(params: &Json) -> (r: Result<DocumentFormat, String>)
    ensures
        match r {
            Ok(f) => format_param(params@) == Ok::<DocumentFormat, Seq<char>>(f),
            Err(e) => format_param(params@) == Err::<DocumentFormat, Seq<char>>(e@),
        },
{
    match opt_str(params, "format") {
        Err(e) => Err(e),
        Ok(None) => Ok(DocumentFormat::Md),
        Ok(Some(s)) => if text::same(s, "md") {
            Ok(DocumentFormat::Md)
        } else if text::same(s, "json") {
            Ok(DocumentFormat::Json)
        } else if text::same(s, "folded") {
            Ok(DocumentFormat::Folded)
        } else {
            Err(text::join3("unknown format `", s, "`: expected `md`, `json` or `folded`"))
        },
    }
}

/// What a document is to hold. The prose is its point: a conclusion that was sent
/// is never left out in silence.
#[derive(Debug, PartialEq, Eq)]
pub struct DocumentRequest {
    /// The arms, the baseline first.
    pub names: Vec<String>,
    pub format: DocumentFormat,
    pub group_by: Grouping,
    pub question: Option<String>,
    pub finding: Option<String>,
    pub filter_intent: Option<String>,
    pub correctness_evidence: Option<String>,
    pub top_n: usize,
    pub allow: Allowances,
}

/// What a [`DocumentRequest`] asks for.
#[verifier::ext_equal]
pub struct DocumentRequestView {
    pub names: Seq<Seq<char>>,
    pub format: DocumentFormat,
    pub group_by: Grouping,
    pub question: Option<Seq<char>>,
    pub finding: Option<Seq<char>>,
    pub filter_intent: Option<Seq<char>>,
    pub correctness_evidence: Option<Seq<char>>,
    pub top_n: nat,
    pub allow: Allowances,
}

impl View for DocumentRequest {
    type V = DocumentRequestView;

    open spec fn view(&self) -> DocumentRequestView {
        DocumentRequestView {
            names: text_views(self.names@),
            format: self.format,
            group_by: self.group_by,
            question: optional_text(self.question),
            finding: optional_text(self.finding),
            filter_intent: optional_text(self.filter_intent),
            correctness_evidence: optional_text(self.correctness_evidence),
            top_n: self.top_n as nat,
            allow: self.allow,
        }
    }
}

/// The prose of a document.
#[verifier::ext_equal]
pub struct ProseView {
    pub question: Option<Seq<char>>,
    pub finding: Option<Seq<char>>,
    pub filter_intent: Option<Seq<char>>,
    pub correctness_evidence: Option<Seq<char>>,
}

/// The prose that a document is sent.
pub open spec fn prose_param(params: JsonView) -> Result<ProseView, Seq<char>> {
    match str_param(params, "question"@) {
        Err(e) => Err(e),
        Ok(question) => match str_param(params, "finding"@) {
            Err(e) => Err(e),
            Ok(finding) => match str_param(params, "filter_intent"@) {
                Err(e) => Err(e),
                Ok(filter_intent) => match str_param(params, "correctness_evidence"@) {
                    Err(e) => Err(e),
                    Ok(correctness_evidence) => Ok(
                        ProseView { question, finding, filter_intent, correctness_evidence },
                    ),
                },
            },
        },
    }
}

/// What a call of `collectors.document` asks for. It groups by name and shows 15
/// rows where it does not say.
pub open spec fn document_request(params: JsonView) -> Result<DocumentRequestView, Seq<char>> {
    match document_arms(params) {
        Err(e) => Err(e),
        Ok(names) => match format_param(params) {
            Err(e) => Err(e),
            Ok(format) => match compared_grouping(
                params,
                Grouping::Name,
                "`: expected "@,
                ""@,
            ) {
                Err(e) => Err(e),
                Ok(group_by) => match prose_param(params) {
                    Err(e) => Err(e),
                    Ok(prose) => match size_param(params, "top_n"@) {
                        Err(e) => Err(e),
                        Ok(top_n) => match allowances_param(params) {
                            Err(e) => Err(e),
                            Ok(allow) => Ok(
                                DocumentRequestView {
                                    names,
                                    format,
                                    group_by,
                                    question: prose.question,
                                    finding: prose.finding,
                                    filter_intent: prose.filter_intent,
                                    correctness_evidence: prose.correctness_evidence,
                                    top_n: size_given(top_n, 15),
                                    allow,
                                },
                            ),
                        },
                    },
                },
            },
        },
    }
}

/// Read a call of `collectors.document`.
pub fn collectors_document(params: &Json) -> (r: Result<DocumentRequest, String>)
    ensures
        match r {
            Ok(q) => document_request(params@) == Ok::<DocumentRequestView, Seq<char>>(q@),
            Err(e) => document_request(params@) == Err::<DocumentRequestView, Seq<char>>(e@),
        },
{
    let names = match arms_of_document(params) {
        Ok(n) => n,
        Err(e) => return Err(e),
    };
    let format = match format_of(params) {
        Ok(f) => f,
        Err(e) => return Err(e),
    };
    let group_by = match compared_grouping_of(params, Grouping::Name, "`: expected ", "") {
        Ok(g) => g,
        Err(e) => return Err(e),
    };
    let question = match words_of(params, "question") {
        Ok(s) => s,
        Err(e) => return Err(e),
    };
    let finding = match words_of(params, "finding") {
        Ok(s) => s,
        Err(e) => return Err(e),
    };
    let filter_intent = match words_of(params, "filter_intent") {
        Ok(s) => s,
        Err(e) => return Err(e),
    };
    let correctness_evidence = match words_of(params, "correctness_evidence") {
        Ok(s) => s,
        Err(e) => return Err(e),
    };
    let top_n: usize = match opt_usize(params, "top_n") {
        Ok(Some(n)) => n,
        Ok(None) => 15,
        Err(e) => return Err(e),
    };
    match allowances_of(params) {
        Ok(allow) => Ok(
            DocumentRequest {
                names,
                format,
                group_by,
                question,
                finding,
                filter_intent,
                correctness_evidence,
                top_n,
                allow,
            },
        ),
        Err(e) => Err(e),
    }
}

/// A comparison is made as its call says: ungrouped and with 20 rows where it says nothing,
/// and never by what a recorded run does not retain.
pub proof fn comparisons_are_made_as_asked(params: JsonView)
    requires
        diff_request(params) is Ok,
    ensures
        ({
            let (group_by, top_n, allow) = diff_request(params)->Ok_0;
            &&& group_by == Grouping::Ungrouped || group_by == Grouping::Name || group_by
                == Grouping::Group
            &&& params.text_at("group_by"@) == Some("name"@) ==> group_by == Grouping::Name
            &&& params.text_at("group_by"@) == Some("group"@) ==> group_by == Grouping::Group
            &&& params.text_at("group_by"@) == Some("none"@) ==> group_by == Grouping::Ungrouped
            &&& params.get("group_by"@) is None ==> group_by == Grouping::Ungrouped
            &&& params.u64_at("top_n"@) matches Some(n) ==> top_n == n
            &&& params.get("top_n"@) is None ==> top_n == 20
            &&& allow.mismatch <==> params.get("allow_mismatch"@) == Some(JsonView::Bool(true))
            &&& allow.lossy <==> params.get("allow_lossy"@) == Some(JsonView::Bool(true))
            &&& allow.truncated <==> params.get("allow_truncated"@) == Some(JsonView::Bool(true))
        }),
{
    reveal_strlit("none");
    reveal_strlit("name");
    reveal_strlit("group");
    assert("none"@.len() != 0 && "name"@.len() != 0 && "group"@.len() != 0);
    assert("none"@[1] == 'o' && "name"@[1] == 'a');
    assert("none"@.len() == 4 && "group"@.len() == 5);
}

/// Traces and paths are refused: a recorded run does not retain what they would be projected
/// from.
pub proof fn unretained_groupings_are_refused(params: JsonView)
    requires
        params.text_at("group_by"@) == Some("trace"@) || params.text_at("group_by"@) == Some(
            "path"@,
        ),
    ensures
        diff_request(params) is Err,
        document_request(params) is Err,
{
    reveal_strlit("none");
    reveal_strlit("name");
    reveal_strlit("group");
    reveal_strlit("path");
    reveal_strlit("trace");
    assert("trace"@.len() == 5 && "path"@.len() == 4 && "none"@.len() == 4 && "name"@.len() == 4);
    assert("trace"@[0] == 't' && "group"@[0] == 'g');
    assert("path"@[0] == 'p' && "none"@[0] == 'n' && "name"@[0] == 'n');
}

/// A document is rendered as its call says, and in Markdown where it says nothing.
pub proof fn formats_go_by_their_names(params: JsonView)
    ensures
        params.get("format"@) is None ==> format_param(params) == Ok::<DocumentFormat, Seq<char>>(
            DocumentFormat::Md,
        ),
        params.get("format"@) matches Some(JsonView::Text(s)) ==> {
            &&& s == "md"@ <==> format_param(params) == Ok::<DocumentFormat, Seq<char>>(
                DocumentFormat::Md,
            )
            &&& s == "json"@ <==> format_param(params) == Ok::<DocumentFormat, Seq<char>>(
                DocumentFormat::Json,
            )
            &&& s == "folded"@ <==> format_param(params) == Ok::<DocumentFormat, Seq<char>>(
                DocumentFormat::Folded,
            )
        },
{
    reveal_strlit("md");
    reveal_strlit("json");
    reveal_strlit("folded");
    assert("md"@.len() == 2 && "json"@.len() == 4 && "folded"@.len() == 6);
}

/// A document holds the arms, the prose and the rows that its call names: it groups by name
/// and shows 15 rows where the call says nothing, and drops no prose.
pub proof fn documents_hold_what_was_asked_for(params: JsonView)
    requires
        document_request(params) is Ok,
    ensures
        ({
            let d = document_request(params)->Ok_0;
            &&& document_arms(params) == Ok::<Seq<Seq<char>>, Seq<char>>(d.names)
            &&& format_param(params) == Ok::<DocumentFormat, Seq<char>>(d.format)
            &&& d.question == params.text_at("question"@)
            &&& d.finding == params.text_at("finding"@)
            &&& d.filter_intent == params.text_at("filter_intent"@)
            &&& d.correctness_evidence == params.text_at("correctness_evidence"@)
            &&& params.get("group_by"@) is None ==> d.group_by == Grouping::Name
            &&& params.text_at("group_by"@) == Some("group"@) ==> d.group_by == Grouping::Group
            &&& params.text_at("group_by"@) == Some("none"@) ==> d.group_by == Grouping::Ungrouped
            &&& params.u64_at("top_n"@) matches Some(n) ==> d.top_n == n
            &&& params.get("top_n"@) is None ==> d.top_n == 15
            &&& d.allow.mismatch <==> params.get("allow_mismatch"@) == Some(JsonView::Bool(true))
            &&& d.allow.lossy <==> params.get("allow_lossy"@) == Some(JsonView::Bool(true))
            &&& d.allow.truncated <==> params.get("allow_truncated"@) == Some(JsonView::Bool(true))
        }),
{
    reveal_strlit("none");
    reveal_strlit("name");
    reveal_strlit("group");
    assert("none"@.len() == 4 && "name"@.len() == 4 && "group"@.len() == 5);
}

} // verus!
