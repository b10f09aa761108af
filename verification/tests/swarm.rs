use kimi_code_extra::swarm::{
    agent_result_text, escape_xml_attribute, subagent_element, text_or_json, AgentCall, AgentSwarm,
    AgentSwarmArgs, SwarmStep,
};
use kimi_code_extra::tool::FunctionToolOutput;

fn args(items: &[&str], subagent_type: Option<&str>) -> AgentSwarmArgs {
    AgentSwarmArgs {
        description: "survey".to_string(),
        items: items.iter().map(|item| item.to_string()).collect(),
        prompt_template: "Look at {{item}}, then {{item}} again".to_string(),
        subagent_type: subagent_type.map(str::to_string),
    }
}

fn run(
    args: AgentSwarmArgs,
    mut agent: impl FnMut(&AgentCall) -> Result<String, String>,
) -> Result<FunctionToolOutput, String> {
    let mut swarm = AgentSwarm::new(args, "call".to_string());
    loop {
        match swarm.next() {
            SwarmStep::Run(pending) => {
                let outcome = agent(pending.call());
                swarm = pending.answer(outcome)?;
            }
            SwarmStep::Finish(output) => return output.map_err(|err| format!("{err:?}")),
        }
    }
}

#[test]
fn a_swarm_without_items_is_done_at_once() {
    let output = run(args(&[], None), |_| panic!("no agent should run"));
    assert_eq!(
        output,
        Ok(FunctionToolOutput {
            text: "<agent_swarm_result>\n<summary>completed: 0</summary>\n</agent_swarm_result>"
                .to_string(),
            success: Some(true),
        })
    );
}

#[test]
fn each_item_gets_an_agent_and_an_element() {
    let mut calls = Vec::new();
    let output = run(args(&["a<\"b\">", "c&d"], None), |call| {
        calls.push((
            call.call_id.clone(),
            call.tool_name.clone(),
            call.arguments.clone(),
        ));
        Ok(if calls.len() == 1 {
            "\"  one\\n\"".to_string()
        } else {
            "{\"k\":[1,2]}".to_string()
        })
    });
    assert_eq!(
        calls,
        vec![
            (
                "call-0".to_string(),
                "Agent".to_string(),
                r#"{"description":"survey: a<\"b\">","prompt":"Look at a<\"b\">, then a<\"b\"> again","run_in_background":false,"subagent_type":"coder"}"#.to_string(),
            ),
            (
                "call-1".to_string(),
                "Agent".to_string(),
                r#"{"description":"survey: c&d","prompt":"Look at c&d, then c&d again","run_in_background":false,"subagent_type":"coder"}"#.to_string(),
            ),
        ]
    );
    assert_eq!(
        output.map(|output| output.text),
        Ok("<agent_swarm_result>\n<summary>completed: 2</summary>\n<subagent item=\"a&lt;&quot;b&quot;&gt;\" outcome=\"completed\">one</subagent>\n<subagent item=\"c&amp;d\" outcome=\"completed\">{\"k\":[1,2]}</subagent>\n</agent_swarm_result>".to_string())
    );
}

#[test]
fn the_kind_of_agent_can_be_chosen() {
    let output = run(args(&["x"], Some("explorer")), |call| {
        assert!(call
            .arguments
            .ends_with(r#""subagent_type":"explorer"}"#));
        Ok("null".to_string())
    });
    assert!(output.is_ok_and(|output| output.text.contains(">null</subagent>")));
}

#[test]
fn the_first_failure_ends_the_swarm() {
    let mut calls = 0;
    let output = run(args(&["a", "b", "c"], None), |_| {
        calls += 1;
        if calls == 2 {
            Err("agent failed".to_string())
        } else {
            Ok("\"ok\"".to_string())
        }
    });
    assert_eq!(output, Err("agent failed".to_string()));
    assert_eq!(calls, 2);
}

#[test]
fn call_ids_are_numbered_in_decimal() {
    let items: Vec<String> = (0..12).map(|n| n.to_string()).collect();
    let items: Vec<&str> = items.iter().map(String::as_str).collect();
    let mut ids = Vec::new();
    let output = run(args(&items, None), |call| {
        ids.push(call.call_id.clone());
        Ok("\"\"".to_string())
    });
    assert_eq!(ids[9..], ["call-9", "call-10", "call-11"]);
    assert!(output.is_ok_and(|output| output.text.contains("completed: 12<")));
}

#[test]
fn results_are_text_or_json() {
    assert_eq!(agent_result_text("\"a\\u00e9\\\"\""), "a\u{e9}\"");
    assert_eq!(agent_result_text("12"), "12");
    assert_eq!(agent_result_text("[\"a\"]"), "[\"a\"]");
    assert_eq!(text_or_json(Some("s".to_string()), "\"s\""), "s");
    assert_eq!(text_or_json(None, "true"), "true");
}

#[test]
fn results_written_as_json_are_read_as_they_were() {
    for string in ["", "plain", "\"quoted\" \\ \n \u{0} \u{1f600}", "null", "[1]"] {
        let value = serde_json::Value::from(string);
        assert_eq!(agent_result_text(&value.to_string()), string);
    }
    for value in [
        serde_json::Value::Null,
        serde_json::Value::from(true),
        serde_json::Value::from(-7),
        serde_json::Value::from_iter(["a", "b"]),
        serde_json::Value::from_iter([("key", "value")]),
    ] {
        assert_eq!(agent_result_text(&value.to_string()), value.to_string());
    }
}

#[test]
fn elements_hold_the_trimmed_text() {
    assert_eq!(
        subagent_element("i", "\u{2003}\n two  words \t"),
        "<subagent item=\"i\" outcome=\"completed\">two  words</subagent>"
    );
}

#[test]
fn attributes_are_escaped() {
    assert_eq!(
        escape_xml_attribute("&<>\"'&amp;"),
        "&amp;&lt;&gt;&quot;'&amp;amp;"
    );
    assert_eq!(escape_xml_attribute(""), "");
    let value = "a & \"b\" <c> &lt;";
    assert_eq!(
        escape_xml_attribute(value),
        value
            .replace('&', "&amp;")
            .replace('"', "&quot;")
            .replace('<', "&lt;")
            .replace('>', "&gt;")
    );
}
