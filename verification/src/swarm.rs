//! The agent swarm: one agent call per item, and the report on all of them.

use vstd::prelude::*;

use crate::error::FunctionCallError;
use crate::text::{
    chars_of, decimal, decimal_text, join, joined, law_decimals_differ, law_nothing_to_replace,
    law_nothing_to_trim, law_replaced_first, lemma_joined_first, lemma_trimmed, replace, replaced,
    text_of, texts, trim, trimmed, white_space,
};
use crate::tool::{text_output, FunctionToolOutput};

verus! {

/// The text of a JSON object with three text members and one flag, as
/// `serde_json` writes it.
pub uninterp spec fn json_object(
    first: (Seq<char>, Seq<char>),
    second: (Seq<char>, Seq<char>),
    flag: (Seq<char>, bool),
    third: (Seq<char>, Seq<char>),
) -> Seq<char>;

/// The string that `json` denotes, where `serde_json` reads it as a JSON string.
pub uninterp spec fn json_string(json: Seq<char>) -> Option<Seq<char>>;

/// Builds a `serde_json::Value` with `Value::from_iter` and writes it with
/// `Value::to_string`. The text depends on the members alone; how it is spelled
/// is not said here.
#[verifier::external_body]
fn write_json_object(
    first: (&str, &str),
    second: (&str, &str),
    flag: (&str, bool),
    third: (&str, &str),
) -> (json: String)
    ensures
        json@ == json_object(
            (first.0@, first.1@),
            (second.0@, second.1@),
            (flag.0@, flag.1),
            (third.0@, third.1@),
        ),
{
    serde_json::Value::from_iter([
        (first.0, serde_json::Value::from(first.1)),
        (second.0, serde_json::Value::from(second.1)),
        (flag.0, serde_json::Value::from(flag.1)),
        (third.0, serde_json::Value::from(third.1)),
    ]).to_string()
}

/// Calls `serde_json::from_str` for a `String`. Whether `json` is a JSON string,
/// and which one, depends on its text alone.
#[verifier::external_body]
fn read_json_string(json: &str) -> (string: Option<String>)
    ensures
        match string {
            Some(s) => json_string(json@) == Some(s@),
            None => json_string(json@) is None,
        },
{
    serde_json::from_str::<String>(json).ok()
}

/// A character as it may stand in an XML attribute between double quotes.
pub open spec fn escaped_char(c: char) -> Seq<char> {
    if c == '&' {
        "&amp;"@
    } else if c == '"' {
        "&quot;"@
    } else if c == '<' {
        "&lt;"@
    } else if c == '>' {
        "&gt;"@
    } else {
        seq![c]
    }
}

/// `s` as it may stand in an XML attribute between double quotes.
pub open spec fn escaped(s: Seq<char>) -> Seq<char>
    decreases s.len(),
{
    if s.len() == 0 {
        Seq::empty()
    } else {
        escaped(s.drop_last()) + escaped_char(s.last())
    }
}

/// Escapes `value` for an XML attribute between double quotes.
pub fn escape_xml_attribute(value: &str) -> (out: String)
    ensures
        out@ == escaped(value@),
{
    let mut out = String::new();
    for c in it: value.chars()
        invariant
            it.seq() == value@,
            out@ == escaped(value@.take(it.index() as int)),
    {
        assert(value@.take(it.index() + 1).drop_last() == value@.take(it.index() as int));
        if c == '&' {
            out.append("&amp;");
        } else if c == '"' {
            out.append("&quot;");
        } else if c == '<' {
            out.append("&lt;");
        } else if c == '>' {
            out.append("&gt;");
        } else {
            out.push(c);
        }
    }
    assert(value@.take(value@.len() as int) == value@);
    out
}

/// What a swarm is asked to do.
#[derive(Debug)]
pub struct AgentSwarmArgs {
    pub description: String,
    pub items: Vec<String>,
    pub prompt_template: String,
    pub subagent_type: Option<String>,
}

/// The texts of `AgentSwarmArgs`.
pub struct SwarmArgsView {
    pub description: Seq<char>,
    pub items: Seq<Seq<char>>,
    pub prompt_template: Seq<char>,
    pub subagent_type: Option<Seq<char>>,
}

impl View for AgentSwarmArgs {
    type V = SwarmArgsView;

    open spec fn view(&self) -> SwarmArgsView {
        SwarmArgsView {
            description: self.description@,
            items: texts(self.items@),
            prompt_template: self.prompt_template@,
            subagent_type: match self.subagent_type {
                Some(kind) => Some(kind@),
                None => None,
            },
        }
    }
}

/// A call of the agent tool.
#[derive(Debug, PartialEq, Eq)]
pub struct AgentCall {
    pub call_id: String,
    pub tool_name: String,
    /// The arguments, as JSON text.
    pub arguments: String,
}

/// The texts of an `AgentCall`.
pub struct CallView {
    pub call_id: Seq<char>,
    pub tool_name: Seq<char>,
    pub arguments: Seq<char>,
}

impl View for AgentCall {
    type V = CallView;

    open spec fn view(&self) -> CallView {
        CallView {
            call_id: self.call_id@,
            tool_name: self.tool_name@,
            arguments: self.arguments@,
        }
    }
}

/// The id of the call for item `index` of the swarm called with `call_id`.
pub open spec fn agent_call_id(call_id: Seq<char>, index: nat) -> Seq<char> {
    call_id + "-"@ + decimal(index)
}

/// The prompt for `item`: the template with the item in each of its places.
pub open spec fn agent_prompt(prompt_template: Seq<char>, item: Seq<char>) -> Seq<char> {
    replaced(prompt_template, "{{item}}"@, item)
}

/// The arguments of the call for `item`.
pub open spec fn agent_arguments(args: SwarmArgsView, item: Seq<char>) -> Seq<char> {
    json_object(
        ("description"@, args.description + ": "@ + item),
        ("prompt"@, agent_prompt(args.prompt_template, item)),
        ("run_in_background"@, false),
        (
            "subagent_type"@,
            match args.subagent_type {
                Some(kind) => kind,
                None => "coder"@,
            },
        ),
    )
}

/// The call for item `index`.
pub open spec fn agent_call(args: SwarmArgsView, call_id: Seq<char>, index: int) -> CallView {
    CallView {
        call_id: agent_call_id(call_id, index as nat),
        tool_name: "Agent"@,
        arguments: agent_arguments(args, args.items[index]),
    }
}

/// An agent's result as text: a string is its own text, anything else its JSON.
pub open spec fn result_text(string: Option<Seq<char>>, json: Seq<char>) -> Seq<char> {
    match string {
        Some(s) => s,
        None => json,
    }
}

/// The element of the report for `item`, whose agent answered with `text`.
pub open spec fn subagent(item: Seq<char>, text: Seq<char>) -> Seq<char> {
    "<subagent item=\""@ + escaped(item) + "\" outcome=\"completed\">"@ + trimmed(text)
        + "</subagent>"@
}

/// The report of a swarm with the given elements.
pub open spec fn swarm_report(elements: Seq<Seq<char>>) -> Seq<char> {
    if elements.len() == 0 {
        "<agent_swarm_result>\n<summary>completed: 0</summary>\n</agent_swarm_result>"@
    } else {
        "<agent_swarm_result>\n<summary>completed: "@ + decimal(elements.len()) + "</summary>\n"@
            + joined(elements, "\n"@) + "\n</agent_swarm_result>"@
    }
}

/// Where a swarm stands: what it was asked, and the elements of the report so far.
pub struct Progress {
    pub args: SwarmArgsView,
    pub call_id: Seq<char>,
    pub elements: Seq<Seq<char>>,
}

impl Progress {
    /// The state after the agent for the next item answered with `json`.
    pub open spec fn answered(self, json: Seq<char>) -> Progress {
        let item = self.args.items[self.elements.len() as int];
        Progress {
            elements: self.elements.push(subagent(item, result_text(json_string(json), json))),
            ..self
        }
    }
}

/// A swarm between two agent calls.
#[derive(Debug)]
pub struct AgentSwarm {
    args: AgentSwarmArgs,
    call_id: String,
    elements: Vec<String>,
}

impl View for AgentSwarm {
    type V = Progress;

    closed spec fn view(&self) -> Progress {
        Progress { args: self.args@, call_id: self.call_id@, elements: texts(self.elements@) }
    }
}

/// A swarm that waits for an agent.
#[derive(Debug)]
pub struct PendingAgent {
    swarm: AgentSwarm,
    call: AgentCall,
}

impl View for PendingAgent {
    type V = Progress;

    closed spec fn view(&self) -> Progress {
        self.swarm@
    }
}

/// What a swarm does next.
#[derive(Debug)]
pub enum SwarmStep {
    /// Run an agent and hand its outcome to the pending call.
    Run(PendingAgent),
    /// End the tool call with this output.
    Finish(Result<FunctionToolOutput, FunctionCallError>),
}

impl AgentSwarm {
    #[verifier::type_invariant]
    spec fn inv(self) -> bool {
        self.elements@.len() <= self.args.items@.len()
    }

    /// A swarm that has run no agent yet.
    pub fn new(args: AgentSwarmArgs, call_id: String) -> (swarm: AgentSwarm)
        ensures
            swarm@ == (Progress { args: args@, call_id: call_id@, elements: Seq::empty() }),
    {
        let swarm = AgentSwarm { args, call_id, elements: Vec::new() };
        assert(swarm@.elements == Seq::<Seq<char>>::empty());
        swarm
    }

    /// The next agent call, or the report once every item is done.
    pub fn next(self) -> (step: SwarmStep)
        ensures
            self@.elements.len() <= self@.args.items.len(),
            match step {
                SwarmStep::Run(pending) => {
                    &&& self@.elements.len() < self@.args.items.len()
                    &&& pending@ == self@
                    &&& pending.agent_call()@ == agent_call(
                        self@.args,
                        self@.call_id,
                        self@.elements.len() as int,
                    )
                },
                SwarmStep::Finish(output) => {
                    &&& self@.elements.len() == self@.args.items.len()
                    &&& output matches Ok(out)
                    &&& out.text@ == swarm_report(self@.elements)
                    &&& out.success == Some(true)
                },
            },
    {
        proof {
            use_type_invariant(&self);
        }
        let done: usize = self.elements.len();
        if done < self.args.items.len() {
            let item = self.args.items[done].as_str();
            let call = AgentCall {
                call_id: call_id_for(self.call_id.as_str(), done),
                tool_name: "Agent".to_string(),
                arguments: arguments_for(&self.args, item),
            };
            SwarmStep::Run(PendingAgent { swarm: self, call })
        } else {
            SwarmStep::Finish(report(&self.elements))
        }
    }
}

impl PendingAgent {
    #[verifier::type_invariant]
    spec fn inv(self) -> bool {
        self.swarm.elements@.len() < self.swarm.args.items@.len()
    }

    /// The call that is pending.
    pub closed spec fn agent_call(&self) -> AgentCall {
        self.call
    }

    /// The call that is pending.
    pub fn call(&self) -> (call: &AgentCall)
        ensures
            *call == self.agent_call(),
    {
        &self.call
    }

    /// Takes the agent's outcome. A result, as JSON text, becomes the element for
    /// the item; a failure ends the swarm as it is.
    pub fn answer<E>(self, outcome: Result<String, E>) -> (swarm: Result<AgentSwarm, E>)
        ensures
            match (outcome, swarm) {
                (Ok(json), Ok(swarm)) => swarm@ == self@.answered(json@),
                (Err(err), Err(out)) => out == err,
                _ => false,
            },
    {
        proof {
            use_type_invariant(&self);
        }
        let json = match outcome {
            Ok(json) => json,
            Err(err) => {
                return Err(err);
            },
        };
        let PendingAgent { swarm, call: _ } = self;
        let AgentSwarm { args, call_id, elements: mut elements } = swarm;
        let text = agent_result_text(json.as_str());
        let element = subagent_element(args.items[elements.len()].as_str(), text.as_str());
        let ghost before = texts(elements@);
        elements.push(element);
        assert(texts(elements@) == before.push(element@));
        Ok(AgentSwarm { args, call_id, elements })
    }
}

/// The id of the call for item `index`.
fn call_id_for(call_id: &str, index: usize) -> (id: String)
    ensures
        id@ == agent_call_id(call_id@, index as nat),
{
    let mut id = call_id.to_string();
    id.append("-");
    id.append(decimal_text(index).as_str());
    id
}

/// The arguments of the call for `item`.
fn arguments_for(args: &AgentSwarmArgs, item: &str) -> (json: String)
    ensures
        json@ == agent_arguments(args@, item@),
{
    let mut description = args.description.clone();
    description.append(": ");
    description.append(item);
    proof {
        reveal_strlit("{{item}}");
    }
    let template = chars_of(args.prompt_template.as_str());
    let prompt = text_of(replace(&template, "{{item}}", item).as_slice());
    let kind: &str = match &args.subagent_type {
        Some(kind) => kind.as_str(),
        None => "coder",
    };
    write_json_object(
        ("description", description.as_str()),
        ("prompt", prompt.as_str()),
        ("run_in_background", false),
        ("subagent_type", kind),
    )
}

/// The text for an agent's result: `string` where the result is a string, else
/// the JSON text itself.
pub fn text_or_json(string: Option<String>, json: &str) -> (text: String)
    ensures
        text@ == result_text(
            match string {
                Some(s) => Some(s@),
                None => None,
            },
            json@,
        ),
{
    match string {
        Some(s) => s,
        None => json.to_string(),
    }
}

/// The text for an agent's result, given as JSON text.
pub fn agent_result_text(json: &str) -> (text: String)
    ensures
        text@ == result_text(json_string(json@), json@),
{
    text_or_json(read_json_string(json), json)
}

/// The element of the report for `item`, whose agent answered with `text`.
pub fn subagent_element(item: &str, text: &str) -> (element: String)
    ensures
        element@ == subagent(item@, text@),
{
    let mut element = "<subagent item=\"".to_string();
    element.append(escape_xml_attribute(item).as_str());
    element.append("\" outcome=\"completed\">");
    element.append(trim(text).as_str());
    element.append("</subagent>");
    element
}

/// The output of a swarm with the given elements.
fn report(elements: &Vec<String>) -> (output: Result<FunctionToolOutput, FunctionCallError>)
    ensures
        output matches Ok(out) && out.text@ == swarm_report(texts(elements@)) && out.success
            == Some(true),
{
    let text = if elements.len() == 0 {
        "<agent_swarm_result>\n<summary>completed: 0</summary>\n</agent_swarm_result>".to_string()
    } else {
        let mut text = "<agent_swarm_result>\n<summary>completed: ".to_string();
        text.append(decimal_text(elements.len()).as_str());
        text.append("</summary>\n");
        text.append(join(elements, "\n").as_str());
        text.append("\n</agent_swarm_result>");
        text
    };
    text_output(text)
}

impl Progress {
    /// The state after the agents for the next items answered with `replies`, in order.
    pub open spec fn after(self, replies: Seq<Seq<char>>) -> Progress
        decreases replies.len(),
    {
        if replies.len() == 0 {
            self
        } else {
            self.after(replies.drop_last()).answered(replies.last())
        }
    }
}

/// A swarm's report has one element per item, in the order of the items, and each
/// holds the answer of its own agent.
pub proof fn law_report_follows_items(
    args: SwarmArgsView,
    call_id: Seq<char>,
    replies: Seq<Seq<char>>,
)
    requires
        replies.len() <= args.items.len(),
    ensures
        ({
            let progress = (Progress { args, call_id, elements: Seq::empty() }).after(replies);
            &&& progress.args == args
            &&& progress.call_id == call_id
            &&& progress.elements == Seq::new(
                replies.len(),
                |i: int|
                    subagent(args.items[i], result_text(json_string(replies[i]), replies[i])),
            )
        }),
    decreases replies.len(),
{
    let start = Progress { args, call_id, elements: Seq::empty() };
    if replies.len() == 0 {
        assert(start.after(replies).elements == Seq::<Seq<char>>::empty());
    } else {
        law_report_follows_items(args, call_id, replies.drop_last());
    }
    assert(start.after(replies).elements == Seq::new(
        replies.len(),
        |i: int| subagent(args.items[i], result_text(json_string(replies[i]), replies[i])),
    ));
}

/// The agent calls that a swarm makes from `progress` on, where each is answered
/// by `agents`, and what the swarm comes to: its report, or the failure of an agent.
pub open spec fn swarm_run<E>(
    progress: Progress,
    agents: spec_fn(CallView) -> Result<Seq<char>, E>,
) -> (Seq<CallView>, Result<Seq<char>, E>)
    decreases progress.args.items.len() - progress.elements.len(),
{
    if progress.elements.len() >= progress.args.items.len() {
        (Seq::empty(), Ok(swarm_report(progress.elements)))
    } else {
        let call = agent_call(progress.args, progress.call_id, progress.elements.len() as int);
        match agents(call) {
            Err(err) => (seq![call], Err(err)),
            Ok(json) => {
                let (calls, outcome) = swarm_run(progress.answered(json), agents);
                (seq![call] + calls, outcome)
            },
        }
    }
}

/// The element for item `index` where its agent is one of `agents` and answers.
pub open spec fn answered_element<E>(
    args: SwarmArgsView,
    call_id: Seq<char>,
    agents: spec_fn(CallView) -> Result<Seq<char>, E>,
    index: int,
) -> Seq<char> {
    let json = agents(agent_call(args, call_id, index))->Ok_0;
    subagent(args.items[index], result_text(json_string(json), json))
}

proof fn lemma_swarm_run<E>(
    progress: Progress,
    agents: spec_fn(CallView) -> Result<Seq<char>, E>,
)
    requires
        progress.elements.len() <= progress.args.items.len(),
    ensures
        ({
            let (calls, outcome) = swarm_run(progress, agents);
            let done = progress.elements.len() as int;
            let left = progress.args.items.len() - done;
            &&& calls.len() <= left
            &&& forall|i: int|
                0 <= i < calls.len() ==> #[trigger] calls[i] == agent_call(
                    progress.args,
                    progress.call_id,
                    done + i,
                )
            &&& forall|i: int| 0 <= i < calls.len() - 1 ==> agents(#[trigger] calls[i]) is Ok
            &&& match outcome {
                Ok(text) => {
                    &&& calls.len() == left
                    &&& calls.len() > 0 ==> agents(calls.last()) is Ok
                    &&& text == swarm_report(
                        progress.elements + Seq::new(
                            left as nat,
                            |i: int|
                                answered_element(progress.args, progress.call_id, agents, done + i),
                        ),
                    )
                },
                Err(err) => calls.len() > 0 && agents(calls.last()) == Err::<Seq<char>, E>(err),
            }
        }),
    decreases progress.args.items.len() - progress.elements.len(),
{
    let done = progress.elements.len() as int;
    let left = progress.args.items.len() - done;
    let coming = Seq::new(
        left as nat,
        |i: int| answered_element(progress.args, progress.call_id, agents, done + i),
    );
    if left == 0 {
        assert(progress.elements + coming == progress.elements);
    } else {
        let call = agent_call(progress.args, progress.call_id, done);
        if let Ok(json) = agents(call) {
            let next = progress.answered(json);
            lemma_swarm_run(next, agents);
            let (rest, _) = swarm_run(next, agents);
            let (calls, _) = swarm_run(progress, agents);
            assert(calls == seq![call] + rest);
            assert forall|i: int| 0 <= i < calls.len() implies #[trigger] calls[i] == agent_call(
                progress.args,
                progress.call_id,
                done + i,
            ) by {
                if i > 0 {
                    assert(calls[i] == rest[i - 1]);
                }
            }
            assert forall|i: int| 0 <= i < calls.len() - 1 implies agents(
                #[trigger] calls[i],
            ) is Ok by {
                if i > 0 {
                    assert(calls[i] == rest[i - 1]);
                }
            }
            assert(rest.len() > 0 ==> calls.last() == rest.last());
            assert(rest.len() == 0 ==> calls.last() == call);
            assert(progress.elements + coming == next.elements + Seq::new(
                (left - 1) as nat,
                |i: int| answered_element(progress.args, progress.call_id, agents, done + 1 + i),
            ));
        }
    }
}

/// A swarm calls one agent per item, in the order of the items, until one fails:
/// it then ends with this failure and calls no other. Where none fails, it reports
/// on every item with the answer of its own agent.
pub proof fn law_first_failure_ends_the_swarm<E>(
    args: SwarmArgsView,
    call_id: Seq<char>,
    agents: spec_fn(CallView) -> Result<Seq<char>, E>,
)
    ensures
        ({
            let start = Progress { args, call_id, elements: Seq::empty() };
            let (calls, outcome) = swarm_run(start, agents);
            &&& calls.len() <= args.items.len()
            &&& forall|i: int|
                0 <= i < calls.len() ==> #[trigger] calls[i] == agent_call(args, call_id, i)
            &&& forall|i: int| 0 <= i < calls.len() - 1 ==> agents(#[trigger] calls[i]) is Ok
            &&& match outcome {
                Ok(text) => {
                    &&& calls.len() == args.items.len()
                    &&& forall|i: int| 0 <= i < calls.len() ==> agents(#[trigger] calls[i]) is Ok
                    &&& text == swarm_report(
                        Seq::new(
                            args.items.len(),
                            |i: int| answered_element(args, call_id, agents, i),
                        ),
                    )
                },
                Err(err) => calls.len() > 0 && agents(calls.last()) == Err::<Seq<char>, E>(err),
            }
        }),
{
    let start = Progress { args, call_id, elements: Seq::empty() };
    lemma_swarm_run(start, agents);
    let all = Seq::new(args.items.len(), |i: int| answered_element(args, call_id, agents, i));
    assert(start.elements + Seq::new(
        args.items.len(),
        |i: int| answered_element(args, call_id, agents, 0 + i),
    ) == all);
}

/// The agent calls of one swarm have different ids.
pub proof fn law_call_ids_differ(call_id: Seq<char>, i: nat, j: nat)
    requires
        i != j,
    ensures
        agent_call_id(call_id, i) != agent_call_id(call_id, j),
{
    law_decimals_differ(i, j);
    let before = call_id + "-"@;
    let n = before.len() as int;
    assert(agent_call_id(call_id, i).skip(n) == decimal(i));
    assert(agent_call_id(call_id, j).skip(n) == decimal(j));
}

proof fn lemma_escaped_char(c: char)
    ensures
        escaped_char(c).len() > 0,
        c == '&' ==> escaped_char(c) == seq!['&', 'a', 'm', 'p', ';'],
        c == '"' ==> escaped_char(c) == seq!['&', 'q', 'u', 'o', 't', ';'],
        c == '<' ==> escaped_char(c) == seq!['&', 'l', 't', ';'],
        c == '>' ==> escaped_char(c) == seq!['&', 'g', 't', ';'],
{
    reveal_strlit("&amp;");
    reveal_strlit("&quot;");
    reveal_strlit("&lt;");
    reveal_strlit("&gt;");
    assert(c == '&' ==> escaped_char(c) == seq!['&', 'a', 'm', 'p', ';']);
    assert(c == '"' ==> escaped_char(c) == seq!['&', 'q', 'u', 'o', 't', ';']);
    assert(c == '<' ==> escaped_char(c) == seq!['&', 'l', 't', ';']);
    assert(c == '>' ==> escaped_char(c) == seq!['&', 'g', 't', ';']);
}

/// An escaped text has no quote and no angle bracket, so an attribute that holds
/// it ends where it should.
pub proof fn law_escaped_stays_inside(s: Seq<char>)
    ensures
        forall|i: int|
            0 <= i < escaped(s).len() ==> (#[trigger] escaped(s)[i]) != '"' && escaped(s)[i] != '<'
                && escaped(s)[i] != '>',
    decreases s.len(),
{
    if s.len() > 0 {
        let init = s.drop_last();
        law_escaped_stays_inside(init);
        lemma_escaped_char(s.last());
        assert forall|i: int| 0 <= i < escaped(s).len() implies (#[trigger] escaped(s)[i]) != '"'
            && escaped(s)[i] != '<' && escaped(s)[i] != '>' by {
            if i < escaped(init).len() {
                assert(escaped(s)[i] == escaped(init)[i]);
            } else {
                assert(escaped(s)[i] == escaped_char(s.last())[i - escaped(init).len()]);
            }
        }
    }
}

proof fn lemma_escaped_first(s: Seq<char>)
    requires
        s.len() > 0,
    ensures
        escaped(s) == escaped_char(s[0]) + escaped(s.skip(1)),
    decreases s.len(),
{
    let init = s.drop_last();
    if s.len() == 1 {
        assert(escaped(init) == Seq::<char>::empty());
        assert(escaped(s.skip(1)) == Seq::<char>::empty());
        assert(escaped(s) == escaped_char(s[0]) + escaped(s.skip(1)));
    } else {
        lemma_escaped_first(init);
        assert(init.skip(1) == s.skip(1).drop_last());
        assert(s.skip(1).last() == s.last());
        assert(escaped(s) == escaped_char(s[0]) + escaped(s.skip(1)));
    }
}

/// Different texts are escaped differently, so an item can be told from its
/// attribute.
pub proof fn law_escaped_texts_differ(a: Seq<char>, b: Seq<char>)
    requires
        a != b,
    ensures
        escaped(a) != escaped(b),
    decreases a.len(),
{
    if escaped(a) == escaped(b) {
        if a.len() == 0 || b.len() == 0 {
            if a.len() > 0 {
                lemma_escaped_first(a);
                lemma_escaped_char(a[0]);
                assert(escaped(a).len() > 0 && escaped(b).len() == 0);
            } else if b.len() > 0 {
                lemma_escaped_first(b);
                lemma_escaped_char(b[0]);
                assert(escaped(b).len() > 0 && escaped(a).len() == 0);
            } else {
                assert(a == b);
            }
        } else {
            lemma_escaped_first(a);
            lemma_escaped_first(b);
            lemma_escaped_char(a[0]);
            lemma_escaped_char(b[0]);
            let left = escaped_char(a[0]);
            let right = escaped_char(b[0]);
            assert(escaped(a)[0] == left[0]);
            assert(escaped(b)[0] == right[0]);
            assert(left.len() > 1 ==> escaped(a)[1] == left[1]);
            assert(right.len() > 1 ==> escaped(b)[1] == right[1]);
            assert(a[0] == b[0]);
            let n = left.len() as int;
            assert(escaped(a).skip(n) == escaped(a.skip(1)));
            assert(escaped(b).skip(n) == escaped(b.skip(1)));
            if a.skip(1) == b.skip(1) {
                assert(a == seq![a[0]] + a.skip(1));
                assert(b == seq![b[0]] + b.skip(1));
            } else {
                law_escaped_texts_differ(a.skip(1), b.skip(1));
            }
        }
    }
}

/// Exchanging one character for a text works on each part of a text by itself.
proof fn lemma_replaced_parts(a: Seq<char>, b: Seq<char>, c: char, to: Seq<char>)
    ensures
        replaced(a + b, seq![c], to) == replaced(a, seq![c], to) + replaced(b, seq![c], to),
    decreases a.len(),
{
    let from = seq![c];
    if a.len() == 0 {
        assert(a + b == b);
        assert(replaced(a, from, to) == a);
    } else {
        let s = a + b;
        assert(s.skip(1) == a.skip(1) + b);
        lemma_replaced_parts(a.skip(1), b, c, to);
        assert(s[0] == a[0]);
        assert(s.take(1) == seq![s[0]]);
        assert(a.take(1) == seq![a[0]]);
        assert(from[0] == c);
        assert(seq![a[0]][0] == a[0]);
        if a[0] == c {
            assert(from == s.take(1));
            assert(from == a.take(1));
        } else {
            assert(from != s.take(1));
            assert(from != a.take(1));
        }
    }
    assert(replaced(a + b, from, to) == replaced(a, from, to) + replaced(b, from, to));
}

/// `s` with the four characters exchanged one after the other, the ampersand first.
pub open spec fn escaped_in_turn(s: Seq<char>) -> Seq<char> {
    let s = replaced(s, seq!['&'], "&amp;"@);
    let s = replaced(s, seq!['"'], "&quot;"@);
    let s = replaced(s, seq!['<'], "&lt;"@);
    replaced(s, seq!['>'], "&gt;"@)
}

proof fn lemma_in_turn_parts(a: Seq<char>, b: Seq<char>)
    ensures
        escaped_in_turn(a + b) == escaped_in_turn(a) + escaped_in_turn(b),
{
    let (a0, b0) = (a, b);
    lemma_replaced_parts(a0, b0, '&', "&amp;"@);
    let (a1, b1) = (replaced(a0, seq!['&'], "&amp;"@), replaced(b0, seq!['&'], "&amp;"@));
    lemma_replaced_parts(a1, b1, '"', "&quot;"@);
    let (a2, b2) = (replaced(a1, seq!['"'], "&quot;"@), replaced(b1, seq!['"'], "&quot;"@));
    lemma_replaced_parts(a2, b2, '<', "&lt;"@);
    let (a3, b3) = (replaced(a2, seq!['<'], "&lt;"@), replaced(b2, seq!['<'], "&lt;"@));
    lemma_replaced_parts(a3, b3, '>', "&gt;"@);
}

proof fn lemma_replaced_absent(s: Seq<char>, c: char, to: Seq<char>)
    requires
        forall|i: int| 0 <= i < s.len() ==> #[trigger] s[i] != c,
    ensures
        replaced(s, seq![c], to) == s,
{
    let from = seq![c];
    assert forall|i: int| 0 <= i <= s.len() - from.len() implies from != #[trigger] s.subrange(
        i,
        i + from.len(),
    ) by {
        assert(s.subrange(i, i + from.len())[0] == s[i]);
        assert(from[0] == c);
    }
    law_nothing_to_replace(s, from, to);
}

proof fn lemma_replaced_char(c: char, to: Seq<char>)
    ensures
        replaced(seq![c], seq![c], to) == to,
{
    let s = seq![c];
    assert(s.take(1) == s);
    assert(s.skip(1) == Seq::<char>::empty());
    assert(replaced(Seq::empty(), s, to) == Seq::<char>::empty());
    assert(to + Seq::<char>::empty() == to);
}

proof fn lemma_in_turn_char(c: char)
    ensures
        escaped_in_turn(seq![c]) == escaped_char(c),
{
    lemma_escaped_char('&');
    lemma_escaped_char('"');
    lemma_escaped_char('<');
    lemma_escaped_char('>');
    let s0 = seq![c];
    if c == '&' {
        lemma_replaced_char(c, "&amp;"@);
    } else {
        lemma_replaced_absent(s0, '&', "&amp;"@);
    }
    let s1 = replaced(s0, seq!['&'], "&amp;"@);
    if c == '"' {
        lemma_replaced_char(c, "&quot;"@);
    } else {
        lemma_replaced_absent(s1, '"', "&quot;"@);
    }
    let s2 = replaced(s1, seq!['"'], "&quot;"@);
    if c == '<' {
        lemma_replaced_char(c, "&lt;"@);
    } else {
        lemma_replaced_absent(s2, '<', "&lt;"@);
    }
    let s3 = replaced(s2, seq!['<'], "&lt;"@);
    if c == '>' {
        lemma_replaced_char(c, "&gt;"@);
    } else {
        lemma_replaced_absent(s3, '>', "&gt;"@);
    }
}

/// To escape a text is to exchange the ampersands first, and then each of the
/// other three characters in turn.
pub proof fn law_escaped_in_turn(s: Seq<char>)
    ensures
        escaped(s) == escaped_in_turn(s),
    decreases s.len(),
{
    if s.len() == 0 {
        let none = Seq::<char>::empty();
        assert(replaced(none, seq!['&'], "&amp;"@) == none);
        assert(escaped_in_turn(s) == s);
        assert(escaped(s) == s);
    } else {
        let init = s.drop_last();
        law_escaped_in_turn(init);
        lemma_in_turn_parts(init, seq![s.last()]);
        lemma_in_turn_char(s.last());
        assert(init + seq![s.last()] == s);
    }
}

/// A prompt template without a place for the item is used as it stands.
pub proof fn law_template_without_place(prompt_template: Seq<char>, item: Seq<char>)
    requires
        forall|i: int|
            0 <= i <= prompt_template.len() - "{{item}}"@.len() ==> "{{item}}"@
                != #[trigger] prompt_template.subrange(i, i + "{{item}}"@.len()),
    ensures
        agent_prompt(prompt_template, item) == prompt_template,
{
    law_nothing_to_replace(prompt_template, "{{item}}"@, item);
}

/// The first place for the item in a template is filled with the item, wherever it
/// stands; what comes before it stays as it is, and what comes after it is treated
/// in the same way.
pub proof fn law_places_are_filled(before: Seq<char>, after: Seq<char>, item: Seq<char>)
    requires
        forall|i: int|
            0 <= i < before.len() ==> "{{item}}"@ != #[trigger] (before + "{{item}}"@
                + after).subrange(i, i + "{{item}}"@.len()),
    ensures
        agent_prompt(before + "{{item}}"@ + after, item) == before + item + agent_prompt(
            after,
            item,
        ),
        agent_prompt("{{item}}"@, item) == item,
{
    reveal_strlit("{{item}}");
    let place = "{{item}}"@;
    law_replaced_first(before, place, after, item);
    let none = Seq::<char>::empty();
    law_replaced_first(none, place, none, item);
    assert(none + place + none == place);
    assert(replaced(none, place, item) == none);
    assert(none + item + none == item);
}

/// The id of an agent call is that of the swarm's call, a hyphen, and the number of
/// the item in decimal.
pub proof fn law_call_id_parts(call_id: Seq<char>, index: nat)
    ensures
        call_id.is_prefix_of(agent_call_id(call_id, index)),
        agent_call_id(call_id, index).len() > call_id.len(),
        agent_call_id(call_id, index)[call_id.len() as int] == '-',
        agent_call_id(call_id, index).skip(call_id.len() as int + 1) == decimal(index),
{
    reveal_strlit("-");
    let id = agent_call_id(call_id, index);
    let n = call_id.len() as int;
    assert(id.subrange(0, n) == call_id);
    assert(id.skip(n + 1) == decimal(index));
}

/// An agent is asked in the foreground, with a description that names the item
/// after that of the swarm, with the prompt for the item, and for the kind of agent
/// that was asked for, or else a coder.
pub proof fn law_agent_arguments(
    args: SwarmArgsView,
    item: Seq<char>,
    description: Seq<char>,
    kind: Seq<char>,
)
    requires
        description == args.description.push(':').push(' ') + item,
        kind == args.subagent_type.unwrap_or("coder"@),
    ensures
        agent_arguments(args, item) == json_object(
            ("description"@, description),
            ("prompt"@, agent_prompt(args.prompt_template, item)),
            ("run_in_background"@, false),
            ("subagent_type"@, kind),
        ),
{
    reveal_strlit(": ");
    assert(args.description + ": "@ == args.description.push(':').push(' '));
}

/// The call for an item is one of the agent tool, with the item's own id and
/// arguments.
pub proof fn law_agent_call(args: SwarmArgsView, call_id: Seq<char>, index: int)
    requires
        0 <= index < args.items.len(),
    ensures
        agent_call(args, call_id, index).tool_name == "Agent"@,
        agent_call(args, call_id, index).call_id == agent_call_id(call_id, index as nat),
        agent_call(args, call_id, index).arguments == agent_arguments(args, args.items[index]),
{
}

/// A result that is a string is reported as that string, without quotes and
/// escapes; any other result as its JSON text.
pub proof fn law_result_text(string: Seq<char>, json: Seq<char>)
    ensures
        result_text(Some(string), json) == string,
        result_text(None, json) == json,
{
}

/// In its element, an answer stands as one part of it, unchanged; what is left out
/// is white space at its two ends.
pub proof fn law_answers_stand_in_elements(item: Seq<char>, text: Seq<char>)
    ensures
        exists|i: int, j: int|
            {
                &&& 0 <= i <= j <= text.len()
                &&& subagent(item, text) == "<subagent item=\""@ + escaped(item)
                    + "\" outcome=\"completed\">"@ + #[trigger] text.subrange(i, j)
                    + "</subagent>"@
                &&& forall|k: int|
                    0 <= k < i || j <= k < text.len() ==> white_space(#[trigger] text[k])
                &&& i < j ==> !white_space(text[i]) && !white_space(text[j - 1])
            },
{
    let (i, j) = lemma_trimmed(text);
    let part = text.subrange(i, j);
    assert(part == trimmed(text));
}

/// An answer without white space at its ends stands in its element as it is.
pub proof fn law_trim_answers_stand_unchanged(item: Seq<char>, text: Seq<char>)
    requires
        text.len() > 0 ==> !white_space(text.first()) && !white_space(text.last()),
    ensures
        subagent(item, text) == "<subagent item=\""@ + escaped(item)
            + "\" outcome=\"completed\">"@ + text + "</subagent>"@,
{
    law_nothing_to_trim(text);
}

/// White space around an answer does not change its element.
pub proof fn law_padding_does_not_matter(item: Seq<char>, text: Seq<char>, c: char)
    requires
        white_space(c),
    ensures
        subagent(item, text.push(c)) == subagent(item, text),
        subagent(item, seq![c] + text) == subagent(item, text),
{
    assert((seq![c] + text).drop_first() == text);
    lemma_trimmed_push(text, c);
}

proof fn lemma_trimmed_push(s: Seq<char>, c: char)
    requires
        white_space(c),
    ensures
        trimmed(s.push(c)) == trimmed(s),
    decreases s.len(),
{
    let t = s.push(c);
    if s.len() == 0 {
        assert(t.drop_first() == s);
    } else if white_space(s[0]) {
        assert(t.drop_first() == s.drop_first().push(c));
        lemma_trimmed_push(s.drop_first(), c);
    } else {
        assert(t.drop_last() == s);
    }
}

proof fn lemma_lines_of_report(elements: Seq<Seq<char>>)
    requires
        elements.len() > 0,
    ensures
        elements.map_values(|e: Seq<char>| seq!['\n'] + e).flatten() == seq!['\n'] + joined(
            elements,
            seq!['\n'],
        ),
    decreases elements.len(),
{
    let feed = seq!['\n'];
    let lines = elements.map_values(|e: Seq<char>| feed + e);
    let rest = elements.drop_first();
    assert(lines.drop_first() == rest.map_values(|e: Seq<char>| feed + e));
    assert(lines.first() == feed + elements[0]);
    if elements.len() == 1 {
        assert(lines.drop_first().flatten() == Seq::<char>::empty());
        assert(feed + elements[0] + Seq::<char>::empty() == feed + elements[0]);
    } else {
        lemma_lines_of_report(rest);
        lemma_joined_first(elements, feed);
        assert(feed + elements[0] + (feed + joined(rest, feed)) == feed + (elements[0] + (feed
            + joined(rest, feed))));
    }
}

/// A report tells how many agents have answered, and then holds their elements, in
/// order, each on a new line.
pub proof fn law_report_lines(elements: Seq<Seq<char>>)
    ensures
        swarm_report(elements) == "<agent_swarm_result>\n<summary>completed: "@ + decimal(
            elements.len(),
        ) + "</summary>"@ + elements.map_values(|e: Seq<char>| seq!['\n'] + e).flatten()
            + "\n</agent_swarm_result>"@,
{
    let open = "<agent_swarm_result>\n<summary>completed: "@;
    let lines = elements.map_values(|e: Seq<char>| seq!['\n'] + e);
    reveal_strlit("\n");
    reveal_strlit("</summary>");
    reveal_strlit("</summary>\n");
    assert("\n"@ == seq!['\n']);
    assert("</summary>\n"@ == "</summary>"@ + seq!['\n']);
    if elements.len() == 0 {
        reveal_strlit("<agent_swarm_result>\n<summary>completed: 0</summary>\n</agent_swarm_result>");
        reveal_strlit("<agent_swarm_result>\n<summary>completed: ");
        reveal_strlit("\n</agent_swarm_result>");
        assert(lines.flatten() == Seq::<char>::empty());
        assert(decimal(0) == seq!['0']);
    } else {
        lemma_lines_of_report(elements);
        let list = joined(elements, seq!['\n']);
        assert(open + decimal(elements.len()) + ("</summary>"@ + seq!['\n']) + list == open
            + decimal(elements.len()) + "</summary>"@ + (seq!['\n'] + list));
    }
}

/// A text is escaped character by character.
pub proof fn law_escaped_parts(a: Seq<char>, b: Seq<char>)
    ensures
        escaped(a + b) == escaped(a) + escaped(b),
    decreases b.len(),
{
    let s = a + b;
    if b.len() == 0 {
        assert(s == a);
        assert(escaped(a) + escaped(b) == escaped(a));
    } else {
        assert(s.drop_last() == a + b.drop_last());
        law_escaped_parts(a, b.drop_last());
        assert(escaped(a) + escaped(b.drop_last()) + escaped_char(b.last()) == escaped(a) + (escaped(
            b.drop_last(),
        ) + escaped_char(b.last())));
    }
}

/// Four characters are escaped, each with its own reference; every other one stands
/// for itself.
pub proof fn law_escaped_characters(c: char)
    ensures
        escaped(seq!['&']) == seq!['&', 'a', 'm', 'p', ';'],
        escaped(seq!['"']) == seq!['&', 'q', 'u', 'o', 't', ';'],
        escaped(seq!['<']) == seq!['&', 'l', 't', ';'],
        escaped(seq!['>']) == seq!['&', 'g', 't', ';'],
        c != '&' && c != '"' && c != '<' && c != '>' ==> escaped(seq![c]) == seq![c],
{
    assert forall|x: char| #[trigger] escaped(seq![x]) == escaped_char(x) by {
        let s = seq![x];
        assert(s.drop_last() == Seq::<char>::empty());
        assert(escaped(Seq::<char>::empty()) == Seq::<char>::empty());
        assert(Seq::<char>::empty() + escaped_char(x) == escaped_char(x));
    }
    lemma_escaped_char('&');
    lemma_escaped_char('"');
    lemma_escaped_char('<');
    lemma_escaped_char('>');
}

/// What a swarm is asked is what its arguments hold, item by item.
pub proof fn law_swarm_arguments(args: AgentSwarmArgs)
    ensures
        args@.description == args.description@,
        args@.prompt_template == args.prompt_template@,
        args@.items.len() == args.items@.len(),
        forall|i: int| 0 <= i < args.items@.len() ==> args@.items[i] == (#[trigger] args.items@[i])@,
        args.subagent_type matches Some(kind) ==> args@.subagent_type == Some(kind@),
        args.subagent_type is None ==> args@.subagent_type is None,
{
}

/// A call is made with the texts that it holds.
pub proof fn law_call_texts(call: AgentCall)
    ensures
        call@.call_id == call.call_id@,
        call@.tool_name == call.tool_name@,
        call@.arguments == call.arguments@,
{
}

} // verus!
