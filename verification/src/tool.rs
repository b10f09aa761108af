//! The tools that the crate offers, as the host sees them.

use vstd::prelude::*;

use crate::error::FunctionCallError;

verus! {

/// The message for a payload that is no function call.
pub const UNSUPPORTED_PAYLOAD: &'static str = "Kimi Code alias received unsupported tool payload";

/// The tools.
#[derive(Clone, Copy, Debug, PartialEq, Eq, Structural)]
pub enum KimiCodeExtraHandler {
    /// Runs one agent per item.
    AgentSwarm,
    /// Fetches a page.
    FetchUrl,
}

/// What a tool is called with.
#[derive(Debug)]
pub enum ToolPayload {
    /// A function call, with its arguments as JSON text.
    Function { arguments: String },
    /// Any other payload; no tool here looks into it.
    Other,
}

/// The schema of a JSON object.
#[derive(Debug)]
pub struct ObjectSchema {
    /// The names of the members that the schema describes.
    pub properties: Vec<String>,
    /// The names of the members that must be present.
    pub required: Option<Vec<String>>,
    /// Whether members that are not described are allowed, where the schema says.
    pub additional_properties: Option<bool>,
}

/// How a tool is announced to the model.
#[derive(Debug)]
pub struct FunctionTool {
    pub name: String,
    pub description: String,
    pub strict: bool,
    pub defer_loading: Option<bool>,
    pub parameters: ObjectSchema,
    /// The schema of the output, as JSON text.
    pub output_schema: Option<String>,
}

/// What a tool call yields.
#[derive(Debug, PartialEq, Eq)]
pub struct FunctionToolOutput {
    pub text: String,
    pub success: Option<bool>,
}

impl KimiCodeExtraHandler {
    /// The name that the model calls the tool by.
    pub open spec fn name(self) -> Seq<char> {
        match self {
            KimiCodeExtraHandler::AgentSwarm => "AgentSwarm"@,
            KimiCodeExtraHandler::FetchUrl => "FetchURL"@,
        }
    }

    /// The name that the model calls the tool by.
    pub fn tool_name(&self) -> (name: &'static str)
        ensures
            name@ == self.name(),
    {
        match self {
            KimiCodeExtraHandler::AgentSwarm => "AgentSwarm",
            KimiCodeExtraHandler::FetchUrl => "FetchURL",
        }
    }

    /// How the tool is announced: a function that takes any object.
    pub fn spec(&self) -> (tool: FunctionTool)
        ensures
            tool.name@ == self.name(),
            tool.description@ == "Open Interpreter Kimi Code compatibility alias for "@
                + self.name() + "."@,
            !tool.strict,
            tool.defer_loading is None,
            tool.parameters.properties@.len() == 0,
            tool.parameters.required is None,
            tool.parameters.additional_properties == Some(true),
            tool.output_schema is None,
    {
        let name = self.tool_name();
        let mut description = "Open Interpreter Kimi Code compatibility alias for ".to_string();
        description.append(name);
        description.append(".");
        FunctionTool {
            name: name.to_string(),
            description,
            strict: false,
            defer_loading: None,
            parameters: ObjectSchema {
                properties: Vec::new(),
                required: None,
                additional_properties: Some(true),
            },
            output_schema: None,
        }
    }

    /// Whether calls of the tool may run side by side: never.
    pub fn supports_parallel_tool_calls(&self) -> (b: bool)
        ensures
            !b,
    {
        false
    }

    /// Whether the tool takes `payload`: only function calls.
    pub fn matches_kind(&self, payload: &ToolPayload) -> (b: bool)
        ensures
            b == (payload is Function),
    {
        matches!(payload, ToolPayload::Function { .. })
    }
}

/// The arguments of a function call, as JSON text.
pub fn parse_invocation_arguments(payload: &ToolPayload) -> (arguments: Result<
    &str,
    FunctionCallError,
>)
    ensures
        match (payload, arguments) {
            (ToolPayload::Function { arguments: text }, Ok(out)) => out@ == text@,
            (ToolPayload::Other, Err(err)) => err@ == UNSUPPORTED_PAYLOAD@,
            _ => false,
        },
{
    match payload {
        ToolPayload::Function { arguments } => Ok(arguments.as_str()),
        ToolPayload::Other => Err(
            FunctionCallError::RespondToModel(UNSUPPORTED_PAYLOAD.to_string()),
        ),
    }
}

/// A successful call's output with the given text.
pub fn text_output(text: String) -> (output: Result<FunctionToolOutput, FunctionCallError>)
    ensures
        output matches Ok(out) && out.text@ == text@ && out.success == Some(true),
{
    Ok(FunctionToolOutput { text, success: Some(true) })
}

/// Different tools have different names.
pub proof fn law_tool_names_differ(a: KimiCodeExtraHandler, b: KimiCodeExtraHandler)
    requires
        a != b,
    ensures
        a.name() != b.name(),
{
    reveal_strlit("AgentSwarm");
    reveal_strlit("FetchURL");
    assert("AgentSwarm"@.len() != "FetchURL"@.len());
}

/// The model knows the tools, and a payload that none of them takes is answered, by
/// these texts.
pub proof fn law_tool_texts()
    ensures
        KimiCodeExtraHandler::AgentSwarm.name() == "AgentSwarm"@,
        KimiCodeExtraHandler::FetchUrl.name() == "FetchURL"@,
        UNSUPPORTED_PAYLOAD@ == "Kimi Code alias received unsupported tool payload"@,
{
}

} // verus!
