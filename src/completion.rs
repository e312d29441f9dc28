//! How a run ended, as its `RunCompletionStatus.xml` reports it.
use vstd::prelude::*;

use crate::text::text_eq;

verus! {

/// roxmltree's parse error; only its presence is used.
#[verifier::external_type_specification]
#[verifier::external_body]
pub struct ExXmlError(roxmltree::Error);

/// The run identifier and the error description of a completion report.
#[derive(Debug)]
pub struct Message {
    pub run_id: String,
    pub message: Option<String>,
}

/// How a run ended, as `RunCompletionStatus.xml` tells.
#[derive(Debug)]
pub enum CompletionStatus {
    CompletedAsPlanned(Message),
    ExceptionEndedEarly(Message),
    UserEndedEarly(Message),
    Other(Message),
}

/// What a completion report held under one tag.
#[derive(Debug)]
pub enum TagText {
    Missing,
    Empty,
    Text(String),
}

impl TagText {
    /// `None` for a missing tag, `Some(None)` for one without text.
    pub open spec fn view(&self) -> Option<Option<Seq<char>>> {
        match self {
            TagText::Missing => None,
            TagText::Empty => Some(None),
            TagText::Text(t) => Some(Some(t@)),
        }
    }
}

/// Why a completion report cannot be used.
#[derive(Debug, Clone, Copy, PartialEq, Eq, Structural)]
pub enum CompletionError {
    BadXml,
    MissingRunId,
    EmptyRunId,
    MissingCompletionStatus,
    EmptyCompletionStatus,
}

/// The kind of ending that a `CompletionStatus` text names: 0 completed as
/// planned, 1 ended early by an exception, 2 ended early by the user, 3 other.
pub open spec fn status_kind(text: Seq<char>) -> int {
    if text == "CompletedAsPlanned"@ {
        0
    } else if text == "ExceptionEndedEarly"@ {
        1
    } else if text == "UserEndedEarly"@ {
        2
    } else {
        3
    }
}

/// A completion status as its kind, run id and message.
pub type StatusView = (int, Seq<char>, Option<Seq<char>>);

/// The status that the `RunId`, `ErrorDescription` and `CompletionStatus`
/// tags describe. A description that reads `None` is no description.
pub open spec fn completion_of(
    run_id: Option<Option<Seq<char>>>,
    description: Option<Option<Seq<char>>>,
    status: Option<Option<Seq<char>>>,
) -> Result<StatusView, CompletionError> {
    match run_id {
        None => Err(CompletionError::MissingRunId),
        Some(None) => Err(CompletionError::EmptyRunId),
        Some(Some(id)) => match status {
            None => Err(CompletionError::MissingCompletionStatus),
            Some(None) => Err(CompletionError::EmptyCompletionStatus),
            Some(Some(st)) => Ok(
                (
                    status_kind(st),
                    id,
                    match description {
                        Some(Some(d)) => if d == "None"@ {
                            None
                        } else {
                            Some(d)
                        },
                        _ => None,
                    },
                ),
            ),
        },
    }
}

/// The view of a completion status.
pub open spec fn status_view(r: Result<CompletionStatus, CompletionError>) -> Result<
    StatusView,
    CompletionError,
> {
    match r {
        Ok(c) => Ok(
            (
                c.kind(),
                c.msg().run_id@,
                match c.msg().message {
                    Some(m) => Some(m@),
                    None => None,
                },
            ),
        ),
        Err(e) => Err(e),
    }
}

impl CompletionStatus {
    pub open spec fn kind(&self) -> int {
        match self {
            CompletionStatus::CompletedAsPlanned(_) => 0,
            CompletionStatus::ExceptionEndedEarly(_) => 1,
            CompletionStatus::UserEndedEarly(_) => 2,
            CompletionStatus::Other(_) => 3,
        }
    }

    pub open spec fn msg(&self) -> Message {
        match self {
            CompletionStatus::CompletedAsPlanned(m) => *m,
            CompletionStatus::ExceptionEndedEarly(m) => *m,
            CompletionStatus::UserEndedEarly(m) => *m,
            CompletionStatus::Other(m) => *m,
        }
    }

    /// The status that the texts of the `RunId`, `ErrorDescription` and
    /// `CompletionStatus` tags describe.
    pub fn from_tags(run_id: TagText, error_description: TagText, status: TagText) -> (r: Result<
        CompletionStatus,
        CompletionError,
    >)
        ensures
            status_view(r) == completion_of(run_id.view(), error_description.view(), status.view()),
    {
        let run_id = match run_id {
            TagText::Missing => {
                return Err(CompletionError::MissingRunId);
            },
            TagText::Empty => {
                return Err(CompletionError::EmptyRunId);
            },
            TagText::Text(id) => id,
        };
        proof {
            reveal_strlit("None");
            reveal_strlit("CompletedAsPlanned");
            reveal_strlit("ExceptionEndedEarly");
            reveal_strlit("UserEndedEarly");
        }
        let message = match error_description {
            TagText::Text(d) => if text_eq(d.as_str(), "None") {
                None
            } else {
                Some(d)
            },
            _ => None,
        };
        let status = match status {
            TagText::Missing => {
                return Err(CompletionError::MissingCompletionStatus);
            },
            TagText::Empty => {
                return Err(CompletionError::EmptyCompletionStatus);
            },
            TagText::Text(st) => st,
        };
        let m = Message { run_id, message };
        if text_eq(status.as_str(), "CompletedAsPlanned") {
            Ok(CompletionStatus::CompletedAsPlanned(m))
        } else if text_eq(status.as_str(), "ExceptionEndedEarly") {
            Ok(CompletionStatus::ExceptionEndedEarly(m))
        } else if text_eq(status.as_str(), "UserEndedEarly") {
            Ok(CompletionStatus::UserEndedEarly(m))
        } else {
            Ok(CompletionStatus::Other(m))
        }
    }
}

/// The nodes of an XML document in document order, each as its local tag
/// name (empty for what is not an element) and its text; `None` where the
/// text is not well-formed XML.
pub uninterp spec fn xml_nodes(xml: Seq<char>) -> Option<Seq<(Seq<char>, Option<Seq<char>>)>>;

/// The view of a node list.
pub open spec fn nodes_view(nodes: Seq<(String, Option<String>)>) -> Seq<(Seq<char>, Option<Seq<char>>)> {
    nodes.map_values(
        |n: (String, Option<String>)|
            (
                n.0@,
                match n.1 {
                    Some(t) => Some(t@),
                    None => None,
                },
            ),
    )
}

/// Relies on roxmltree::Document::parse, walked with `descendants`: each node
/// as its tag name (`tag_name().name()`) and its text (`text()`).
#[verifier::external_body]
fn parse_xml_nodes(xml: &str) -> (r: Result<Vec<(String, Option<String>)>, roxmltree::Error>)
    ensures
        r is Ok <==> xml_nodes(xml@) is Some,
        r matches Ok(v) ==> Some(nodes_view(v@)) == xml_nodes(xml@),
{
    roxmltree::Document::parse(xml).map(|doc| {
        doc.descendants().map(|n| (n.tag_name().name().to_owned(), n.text().map(str::to_owned))).collect()
    })
}

/// What the first node named `tag` holds: `None` where there is none,
/// `Some(None)` where it has no text.
pub open spec fn first_tag(nodes: Seq<(Seq<char>, Option<Seq<char>>)>, tag: Seq<char>) -> Option<
    Option<Seq<char>>,
>
    decreases nodes.len(),
{
    if nodes.len() == 0 {
        None
    } else if nodes[0].0 == tag {
        Some(nodes[0].1)
    } else {
        first_tag(nodes.drop_first(), tag)
    }
}

fn find_tag(nodes: &Vec<(String, Option<String>)>, tag: &str) -> (r: TagText)
    ensures
        r.view() == first_tag(nodes_view(nodes@), tag@),
{
    let ghost all = nodes_view(nodes@);
    let mut i: usize = 0;
    assert(all.subrange(0, all.len() as int) =~= all);
    while i < nodes.len()
        invariant
            i <= nodes@.len(),
            all == nodes_view(nodes@),
            first_tag(all.subrange(i as int, all.len() as int), tag@) == first_tag(all, tag@),
        decreases nodes@.len() - i,
    {
        assert(all.subrange(i as int, all.len() as int).drop_first() =~= all.subrange(
            i + 1,
            all.len() as int,
        ));
        assert(all.subrange(i as int, all.len() as int)[0] == all[i as int]);
        if text_eq(nodes[i].0.as_str(), tag) {
            return match &nodes[i].1 {
                Some(t) => TagText::Text(t.as_str().to_owned()),
                None => TagText::Empty,
            };
        }
        i = i + 1;
    }
    TagText::Missing
}

/// The status that the nodes of a `RunCompletionStatus.xml` describe.
pub fn completion_from_nodes(nodes: &Vec<(String, Option<String>)>) -> (r: Result<
    CompletionStatus,
    CompletionError,
>)
    ensures
        status_view(r) == completion_of(
            first_tag(nodes_view(nodes@), "RunId"@),
            first_tag(nodes_view(nodes@), "ErrorDescription"@),
            first_tag(nodes_view(nodes@), "CompletionStatus"@),
        ),
{
    proof {
        reveal_strlit("RunId");
        reveal_strlit("ErrorDescription");
        reveal_strlit("CompletionStatus");
    }
    let run_id = find_tag(nodes, "RunId");
    let description = find_tag(nodes, "ErrorDescription");
    let status = find_tag(nodes, "CompletionStatus");
    CompletionStatus::from_tags(run_id, description, status)
}

/// Reads the text of a `RunCompletionStatus.xml`.
pub fn parse_run_completion(xml: &str) -> (r: Result<CompletionStatus, CompletionError>)
    ensures
        xml_nodes(xml@) is None ==> r == Err::<CompletionStatus, CompletionError>(
            CompletionError::BadXml,
        ),
        xml_nodes(xml@) matches Some(ns) ==> status_view(r) == completion_of(
            first_tag(ns, "RunId"@),
            first_tag(ns, "ErrorDescription"@),
            first_tag(ns, "CompletionStatus"@),
        ),
{
    match parse_xml_nodes(xml) {
        Ok(nodes) => completion_from_nodes(&nodes),
        Err(_) => Err(CompletionError::BadXml),
    }
}

} // verus!
