//! What a tool execution hands back to the session actor.

use vstd::prelude::*;

verus! {

/// The model-independent result of one tool execution.
#[derive(Debug, Clone, PartialEq, Eq)]
pub struct ToolExecutionResult {
    /// The provider's own call id, which pairs the result with the assistant's tool call.
    pub call_id: String,
    /// The tool's name.
    pub name: String,
    /// Whether the tool finished successfully.
    pub ok: bool,
    /// The output, within the output limit.
    pub content: String,
    /// Whether output beyond the limit was dropped.
    pub truncated: bool,
    /// The exit code of a process; usually absent for other tools.
    pub exit_code: Option<i32>,
    /// A stable machine-readable failure kind.
    pub error_kind: Option<String>,
}

/// Why the arguments of a call could not be turned into a tool request, or the tool could
/// not run.
#[derive(Debug, Clone, PartialEq, Eq)]
pub enum ToolWorkerError {
    InvalidArguments { tool_name: String, reason: String },
    Unavailable { tool_name: String },
    Cancelled,
}

/// A `ToolWorkerError` with its texts taken as character sequences.
pub enum ToolWorkerErrorView {
    InvalidArguments { tool_name: Seq<char>, reason: Seq<char> },
    Unavailable { tool_name: Seq<char> },
    Cancelled,
}

impl View for ToolWorkerError {
    type V = ToolWorkerErrorView;

    open spec fn view(&self) -> ToolWorkerErrorView {
        match self {
            ToolWorkerError::InvalidArguments { tool_name, reason } => {
                ToolWorkerErrorView::InvalidArguments { tool_name: tool_name@, reason: reason@ }
            },
            ToolWorkerError::Unavailable { tool_name } => ToolWorkerErrorView::Unavailable {
                tool_name: tool_name@,
            },
            ToolWorkerError::Cancelled => ToolWorkerErrorView::Cancelled,
        }
    }
}

/// The human-readable text of a tool worker error.
pub open spec fn tool_worker_error_text(e: ToolWorkerErrorView) -> Seq<char> {
    match e {
        ToolWorkerErrorView::InvalidArguments { tool_name, reason } => "工具参数无效："@ + tool_name
            + ": "@ + reason,
        ToolWorkerErrorView::Unavailable { tool_name } => "工具未配置："@ + tool_name,
        ToolWorkerErrorView::Cancelled => "工具执行已取消"@,
    }
}

impl ToolWorkerError {
    /// The human-readable text of this error.
    pub fn message(&self) -> (r: String)
        ensures
            r@ == tool_worker_error_text(self@),
    {
        match self {
            ToolWorkerError::InvalidArguments { tool_name, reason } => {
                let mut r = "工具参数无效：".to_owned();
                r.append(tool_name.as_str());
                r.append(": ");
                r.append(reason.as_str());
                r
            },
            ToolWorkerError::Unavailable { tool_name } => {
                let mut r = "工具未配置：".to_owned();
                r.append(tool_name.as_str());
                r
            },
            ToolWorkerError::Cancelled => "工具执行已取消".to_owned(),
        }
    }
}

} // verus!
