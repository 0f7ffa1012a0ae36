//! The routing of the tool server's JSON-RPC requests: which method and
//! which tool a request names, the error codes and messages it answers
//! with, and which input lines carry a request.
use vstd::prelude::*;
use crate::text::{chars_of, chars_eq, extend_str, string_of, trim, trim_str};

verus! {

/// The methods the tool server answers.
#[derive(Clone, Copy, PartialEq, Eq, Debug, Structural)]
pub enum McpMethod {
    Initialize,
    ListTools,
    CallTool,
    NotFound,
}

/// The method a request names.
pub open spec fn mcp_method_spec(method: Seq<char>) -> McpMethod {
    if method == "initialize"@ {
        McpMethod::Initialize
    } else if method == "tools/list"@ {
        McpMethod::ListTools
    } else if method == "tools/call"@ {
        McpMethod::CallTool
    } else {
        McpMethod::NotFound
    }
}

/// The method a request names (see `mcp_method_spec`).
pub fn mcp_method(method: &str) -> (r: McpMethod)
    ensures
        r == mcp_method_spec(method@),
{
    let m = chars_of(method);
    if chars_eq(&m, &chars_of("initialize")) {
        McpMethod::Initialize
    } else if chars_eq(&m, &chars_of("tools/list")) {
        McpMethod::ListTools
    } else if chars_eq(&m, &chars_of("tools/call")) {
        McpMethod::CallTool
    } else {
        McpMethod::NotFound
    }
}

/// The tools the server offers.
#[derive(Clone, Copy, PartialEq, Eq, Debug, Structural)]
pub enum McpTool {
    DetectMime,
    ComputePhash,
    ExtractOcr,
    CheckCorrupted,
}

/// The tool a call names, if the server offers it.
pub open spec fn mcp_tool_spec(name: Seq<char>) -> Option<McpTool> {
    if name == "omni_detect_mime"@ {
        Some(McpTool::DetectMime)
    } else if name == "omni_compute_phash"@ {
        Some(McpTool::ComputePhash)
    } else if name == "omni_extract_ocr"@ {
        Some(McpTool::ExtractOcr)
    } else if name == "omni_check_corrupted"@ {
        Some(McpTool::CheckCorrupted)
    } else {
        None
    }
}

/// The tool a call names (see `mcp_tool_spec`).
pub fn mcp_tool(name: &str) -> (r: Option<McpTool>)
    ensures
        r == mcp_tool_spec(name@),
{
    let n = chars_of(name);
    if chars_eq(&n, &chars_of("omni_detect_mime")) {
        Some(McpTool::DetectMime)
    } else if chars_eq(&n, &chars_of("omni_compute_phash")) {
        Some(McpTool::ComputePhash)
    } else if chars_eq(&n, &chars_of("omni_extract_ocr")) {
        Some(McpTool::ExtractOcr)
    } else if chars_eq(&n, &chars_of("omni_check_corrupted")) {
        Some(McpTool::CheckCorrupted)
    } else {
        None
    }
}

/// The JSON-RPC error code of an unknown method.
pub fn method_not_found_code() -> (r: i32)
    ensures
        r == -32601,
{
    -32601
}

/// The message of an unknown method.
pub fn method_not_found_message() -> (r: &'static str)
    ensures
        r@ == "Method not found"@,
{
    "Method not found"
}

/// The JSON-RPC error code of a failed tool call.
pub fn tool_failure_code() -> (r: i32)
    ensures
        r == -32603,
{
    -32603
}

/// The message of a call to a tool the server does not offer.
pub fn unknown_tool_message(name: &str) -> (r: String)
    ensures
        r@ == "Unknown tool name: "@ + name@,
{
    let mut c = chars_of("Unknown tool name: ");
    extend_str(&mut c, name);
    string_of(&c)
}

/// The request carried by an input line: the trimmed line, none when it
/// is blank.
pub fn request_line(line: &str) -> (r: Option<String>)
    ensures
        trim(line@).len() == 0 ==> r is None,
        trim(line@).len() > 0 ==> (r matches Some(t) && t@ == trim(line@)),
{
    let t = trim_str(line);
    if t.as_str().unicode_len() == 0 {
        None
    } else {
        Some(t)
    }
}

} // verus!
