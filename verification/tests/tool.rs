use kimi_code_extra::error::{non_public_url_error, FunctionCallError};
use kimi_code_extra::tool::{
    parse_invocation_arguments, text_output, FunctionToolOutput, KimiCodeExtraHandler, ToolPayload,
};

#[test]
fn tools_are_announced_as_functions_of_any_object() {
    let tool = KimiCodeExtraHandler::FetchUrl.spec();
    assert_eq!(tool.name, "FetchURL");
    assert_eq!(
        tool.description,
        "Open Interpreter Kimi Code compatibility alias for FetchURL."
    );
    assert!(!tool.strict);
    assert_eq!(tool.defer_loading, None);
    assert!(tool.parameters.properties.is_empty());
    assert_eq!(tool.parameters.required, None);
    assert_eq!(tool.parameters.additional_properties, Some(true));
    assert_eq!(tool.output_schema, None);
    assert_eq!(KimiCodeExtraHandler::AgentSwarm.tool_name(), "AgentSwarm");
    assert_eq!(KimiCodeExtraHandler::FetchUrl.tool_name(), "FetchURL");
}

#[test]
fn tools_run_one_at_a_time() {
    assert!(!KimiCodeExtraHandler::AgentSwarm.supports_parallel_tool_calls());
    assert!(!KimiCodeExtraHandler::FetchUrl.supports_parallel_tool_calls());
}

#[test]
fn only_function_calls_are_taken() {
    let call = ToolPayload::Function {
        arguments: "{\"url\":\"x\"}".to_string(),
    };
    assert!(KimiCodeExtraHandler::FetchUrl.matches_kind(&call));
    assert!(!KimiCodeExtraHandler::AgentSwarm.matches_kind(&ToolPayload::Other));
    assert_eq!(parse_invocation_arguments(&call), Ok("{\"url\":\"x\"}"));
    assert_eq!(
        parse_invocation_arguments(&ToolPayload::Other),
        Err(FunctionCallError::RespondToModel(
            "Kimi Code alias received unsupported tool payload".to_string()
        ))
    );
}

#[test]
fn outputs_are_successful() {
    assert_eq!(
        text_output("done".to_string()),
        Ok(FunctionToolOutput {
            text: "done".to_string(),
            success: Some(true),
        })
    );
}

#[test]
fn refusals_name_private_addresses() {
    assert_eq!(
        non_public_url_error(),
        FunctionCallError::RespondToModel(
            "FetchURL does not fetch private or loopback addresses.".to_string()
        )
    );
}
