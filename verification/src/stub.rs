//! What the frontend answers when no backend is attached: the tool surface,
//! and the reason every tool call fails.

use crate::text::same_text;
use vstd::prelude::*;
use vstd::string::*;

verus! {

/// What a request is answered by a session with no backend.
#[derive(Clone, Debug, PartialEq, Eq)]
pub enum StubReply {
    /// The answer to the first request.
    Initialize {
        /// The protocol the client asked for, or the one assumed.
        protocol_version: String,
        /// What the client is told.
        instructions: String,
    },
    /// An empty result.
    Empty,
    /// The tools there would be.
    Tools,
    /// No resources.
    Resources,
    /// No resource templates.
    ResourceTemplates,
    /// A tool call that failed, for this reason.
    ToolFailed(String),
    /// A request that failed, for this reason.
    Error(String),
}

/// What a [`StubReply`] stands for.
pub enum StubView {
    /// The answer to the first request.
    Initialize {
        /// The protocol the client asked for, or the one assumed.
        protocol_version: Seq<char>,
        /// What the client is told.
        instructions: Seq<char>,
    },
    /// An empty result.
    Empty,
    /// The tools there would be.
    Tools,
    /// No resources.
    Resources,
    /// No resource templates.
    ResourceTemplates,
    /// A tool call that failed, for this reason.
    ToolFailed(Seq<char>),
    /// A request that failed, for this reason.
    Error(Seq<char>),
}

impl DeepView for StubReply {
    type V = StubView;

    open spec fn deep_view(&self) -> StubView {
        match self {
            StubReply::Initialize { protocol_version, instructions } => StubView::Initialize {
                protocol_version: protocol_version@,
                instructions: instructions@,
            },
            StubReply::Empty => StubView::Empty,
            StubReply::Tools => StubView::Tools,
            StubReply::Resources => StubView::Resources,
            StubReply::ResourceTemplates => StubView::ResourceTemplates,
            StubReply::ToolFailed(reason) => StubView::ToolFailed(reason@),
            StubReply::Error(reason) => StubView::Error(reason@),
        }
    }
}

/// The answer to a method of a session with no backend.
pub open spec fn stub_answer(
    method: Seq<char>,
    protocol: Option<Seq<char>>,
    instructions: Seq<char>,
    reason: Seq<char>,
) -> StubView {
    if method == "initialize"@ {
        StubView::Initialize {
            protocol_version: match protocol {
                Some(p) => p,
                None => "2025-06-18"@,
            },
            instructions: instructions + " "@ + reason,
        }
    } else if method == "ping"@ {
        StubView::Empty
    } else if method == "tools/list"@ {
        StubView::Tools
    } else if method == "resources/list"@ {
        StubView::Resources
    } else if method == "resources/templates/list"@ {
        StubView::ResourceTemplates
    } else if method == "tools/call"@ {
        StubView::ToolFailed(reason)
    } else {
        StubView::Error(reason)
    }
}

/// The response to a message for a session with no backend, because of
/// `reason`. `None` for a notification or a response to nothing.
///
/// A tool call fails at once, whether the session is waiting for a backend or
/// has none.
pub fn answer(
    has_id: bool,
    method: Option<&str>,
    protocol: Option<&str>,
    instructions: &str,
    reason: &str,
) -> (r: Option<StubReply>)
    ensures
        r is Some <==> has_id && method is Some,
        r is Some ==> r->Some_0.deep_view() == stub_answer(
            method->Some_0@,
            match protocol {
                Some(p) => Some(p@),
                None => None,
            },
            instructions@,
            reason@,
        ),
{
    if !has_id {
        return None;
    }
    let method = match method {
        Some(method) => method,
        None => {
            return None;
        },
    };
    if same_text(method, "initialize") {
        let mut text = instructions.to_owned();
        text.append(" ");
        text.append(reason);
        Some(
            StubReply::Initialize {
                protocol_version: match protocol {
                    Some(p) => p.to_owned(),
                    None => "2025-06-18".to_owned(),
                },
                instructions: text,
            },
        )
    } else if same_text(method, "ping") {
        Some(StubReply::Empty)
    } else if same_text(method, "tools/list") {
        Some(StubReply::Tools)
    } else if same_text(method, "resources/list") {
        Some(StubReply::Resources)
    } else if same_text(method, "resources/templates/list") {
        Some(StubReply::ResourceTemplates)
    } else if same_text(method, "tools/call") {
        Some(StubReply::ToolFailed(reason.to_owned()))
    } else {
        Some(StubReply::Error(reason.to_owned()))
    }
}

} // verus!
