//! The MCP protocol side of the server: session state, request routing, replies.

use vstd::prelude::*;

use crate::expose::{expose_rejection, expose_rejection_spec, ExposeGroup};
use crate::text::{byte_len, decimal, opt_text, same_text, trim, trim_spec, usize_text};

verus! {

/// Protocol version announced to clients.
pub const MCP_VERSION: &'static str = "2024-11-05";

/// Server name announced to clients.
pub const SERVER_NAME: &'static str = "narsil-mcp";

/// Largest JSON-RPC message accepted, in bytes.
pub const MAX_MESSAGE_SIZE: usize = 10 * 1024 * 1024;

/// Error code of a request refused because its repository is being re-indexed.
pub const JSONRPC_INDEX_BUSY: i32 = -32001;

// ---- session ----

/// The client on the other side of a session, as its handshake named it.
#[derive(Debug)]
pub struct ClientInfo {
    pub name: String,
    pub version: Option<String>,
}

pub open spec fn client_text(info: Option<ClientInfo>) -> Option<(Seq<char>, Option<Seq<char>>)> {
    match info {
        Some(c) => Some((c.name@, opt_text(c.version))),
        None => None,
    }
}

/// Per-session state: what the handshake said about the client.
#[derive(Debug)]
pub struct SessionState {
    client: Option<ClientInfo>,
}

impl View for SessionState {
    type V = Option<(Seq<char>, Option<Seq<char>>)>;

    closed spec fn view(&self) -> Option<(Seq<char>, Option<Seq<char>>)> {
        client_text(self.client)
    }
}

impl Default for SessionState {
    fn default() -> (r: Self)
        ensures
            r@ is None,
    {
        SessionState { client: None }
    }
}

impl SessionState {
    /// A session that has not seen a handshake.
    pub fn new() -> (r: Self)
        ensures
            r@ is None,
    {
        SessionState { client: None }
    }

    /// Remembers the client of this session, in place of any earlier one.
    pub fn set_client_info(&mut self, info: ClientInfo)
        ensures
            final(self)@ == client_text(Some(info)),
    {
        self.client = Some(info);
    }

    /// The client last remembered.
    pub fn client_info(&self) -> (r: Option<ClientInfo>)
        ensures
            client_text(r) == self@,
    {
        match &self.client {
            None => None,
            Some(c) => {
                let version = match &c.version {
                    Some(v) => Some(v.clone()),
                    None => None,
                };
                Some(ClientInfo { name: c.name.clone(), version })
            },
        }
    }
}

// ---- responses ----

/// An entry of the tool list; the schema is JSON text.
#[derive(Debug)]
pub struct ToolEntry {
    pub name: String,
    pub description: String,
    pub input_schema: String,
}

/// An argument a prompt takes.
#[derive(Debug)]
pub struct PromptArgument {
    pub name: String,
    pub description: String,
    pub required: bool,
}

/// An entry of the prompt list.
#[derive(Debug)]
pub struct PromptInfo {
    pub name: String,
    pub description: String,
    pub arguments: Vec<PromptArgument>,
}

/// The result part of a response.
#[derive(Debug)]
pub enum Payload {
    Empty,
    Initialize { protocol_version: String, server_name: String, server_version: String },
    Tools(Vec<ToolEntry>),
    ToolText(String),
    Resources,
    ResourceText { uri: String, text: String },
    Prompts(Vec<PromptInfo>),
    PromptMessage { description: String, text: String },
}

#[derive(Debug)]
pub struct JsonRpcError {
    pub code: i32,
    pub message: String,
}

/// A JSON-RPC response; the id is the JSON text of the request's id.
#[derive(Debug)]
pub struct JsonRpcResponse {
    pub jsonrpc: String,
    pub id: Option<String>,
    pub result: Option<Payload>,
    pub error: Option<JsonRpcError>,
}

impl JsonRpcResponse {
    /// A response that carries a result and no error.
    pub open spec fn is_success(self, id: Option<String>, result: Payload) -> bool {
        &&& self.jsonrpc@ == "2.0"@
        &&& self.id == id
        &&& self.result == Some(result)
        &&& self.error is None
    }

    /// A response that carries an error and no result.
    pub open spec fn is_error(self, id: Option<String>, code: int, message: Seq<char>) -> bool {
        &&& self.jsonrpc@ == "2.0"@
        &&& self.id == id
        &&& self.result is None
        &&& self.error matches Some(e) && e.code == code && e.message@ == message
    }

    pub fn success(id: Option<String>, result: Payload) -> (r: Self)
        ensures
            r.is_success(id, result),
    {
        JsonRpcResponse {
            jsonrpc: "2.0".to_owned(),
            id,
            result: Some(result),
            error: None,
        }
    }

    pub fn error(id: Option<String>, code: i32, message: &str) -> (r: Self)
        ensures
            r.is_error(id, code as int, message@),
    {
        JsonRpcResponse {
            jsonrpc: "2.0".to_owned(),
            id,
            result: None,
            error: Some(JsonRpcError { code, message: message.to_owned() }),
        }
    }
}

// ---- JSON text ----

/// The string found at a JSON pointer in a JSON text.
pub uninterp spec fn json_string_at(text: Seq<char>, pointer: Seq<char>) -> Option<Seq<char>>;

/// `serde_json::from_str`, `Value::pointer` and `Value::as_str`: the string at a pointer;
/// `None` where the text does not parse, the pointer leads nowhere, or to no string.
#[verifier::external_body]
fn read_json_string(text: &str, pointer: &str) -> (r: Option<String>)
    ensures
        opt_text(r) == json_string_at(text@, pointer@),
{
    let value: serde_json::Value = serde_json::from_str(text).ok()?;
    value.pointer(pointer)?.as_str().map(str::to_owned)
}

/// The JSON text of the value found at a JSON pointer in a JSON text.
pub uninterp spec fn json_value_at(text: Seq<char>, pointer: Seq<char>) -> Option<Seq<char>>;

/// `serde_json::from_str`, `Value::pointer` and `Value::to_string`: the value at a
/// pointer, as JSON text; `None` where the text does not parse or the pointer leads
/// nowhere.
#[verifier::external_body]
fn read_json_value(text: &str, pointer: &str) -> (r: Option<String>)
    ensures
        opt_text(r) == json_value_at(text@, pointer@),
{
    let value: serde_json::Value = serde_json::from_str(text).ok()?;
    value.pointer(pointer).map(|found| found.to_string())
}

// ---- the stdio loop ----

/// What a line read from the client calls for before it is parsed.
#[derive(Debug)]
pub enum ScreenedLine {
    /// The line exceeds the size limit: answer with this error.
    TooLarge(JsonRpcResponse),
    /// Nothing on the line.
    Blank,
    /// Parse this text as a request.
    Request(String),
}

pub open spec fn too_large_text(bytes: usize) -> Seq<char> {
    "Message too large: "@ + decimal(bytes as nat) + " bytes exceeds "@ + decimal(
        MAX_MESSAGE_SIZE as nat,
    ) + " byte limit"@
}

/// Screens one line: oversized lines are answered with an error that carries no id, blank
/// lines are skipped, and the rest is handed on without surrounding white space.
pub fn screen_line(line: &str) -> (r: ScreenedLine)
    ensures
        match r {
            ScreenedLine::TooLarge(response) => byte_len(line@) > MAX_MESSAGE_SIZE
                && response.is_error(None, -32600, too_large_text(byte_len(line@))),
            ScreenedLine::Blank => byte_len(line@) <= MAX_MESSAGE_SIZE && trim_spec(line@).len()
                == 0,
            ScreenedLine::Request(text) => byte_len(line@) <= MAX_MESSAGE_SIZE && text@
                == trim_spec(line@) && text@.len() > 0,
        },
{
    let size: usize = line.len();
    if size > MAX_MESSAGE_SIZE {
        let mut message = "Message too large: ".to_owned();
        let shown = usize_text(size);
        message.append(shown.as_str());
        message.append(" bytes exceeds ");
        let limit = usize_text(MAX_MESSAGE_SIZE);
        message.append(limit.as_str());
        message.append(" byte limit");
        return ScreenedLine::TooLarge(JsonRpcResponse::error(None, -32600, message.as_str()));
    }
    let text = trim(line);
    if text.as_str().is_empty() {
        ScreenedLine::Blank
    } else {
        ScreenedLine::Request(text)
    }
}

/// What becomes of a line that parsed as a request: a notification, which has no id, is
/// handled without a reply.
pub open spec fn wants_reply(id: Option<Seq<char>>) -> bool {
    id is Some
}

/// Whether a request is answered.
pub fn is_answered(id: &Option<String>) -> (r: bool)
    ensures
        r == wants_reply(opt_text(*id)),
{
    id.is_some()
}

/// The id a parse error is answered under: the raw id where there is one that is not null.
pub open spec fn parse_error_id(raw_id: Option<Seq<char>>) -> Option<Seq<char>> {
    match raw_id {
        Some(id) => if id == "null"@ {
            None
        } else {
            Some(id)
        },
        None => None,
    }
}

/// The reply to a line that is no request, given the JSON text of its id: an error where
/// it carries an id other than null, and silence otherwise.
pub fn parse_error_reply_for(raw_id: Option<String>, error: &str) -> (r: Option<JsonRpcResponse>)
    ensures
        match parse_error_id(opt_text(raw_id)) {
            None => r is None,
            Some(id) => r matches Some(response) && response.is_error(
                raw_id,
                -32700,
                "Parse error: "@ + error@,
            ),
        },
{
    match &raw_id {
        None => {
            return None;
        },
        Some(id) => {
            if same_text(id.as_str(), "null") {
                return None;
            }
        },
    }
    let mut message = "Parse error: ".to_owned();
    message.append(error);
    Some(JsonRpcResponse::error(raw_id, -32700, message.as_str()))
}

/// The reply to a line that is no request.
pub fn parse_error_reply(line: &str, error: &str) -> (r: Option<JsonRpcResponse>)
    ensures
        match parse_error_id(json_value_at(line@, "/id"@)) {
            None => r is None,
            Some(id) => r matches Some(response) && opt_text(response.id) == Some(id)
                && response.is_error(response.id, -32700, "Parse error: "@ + error@),
        },
{
    let raw_id = read_json_value(line, "/id");
    parse_error_reply_for(raw_id, error)
}

// ---- routing ----

/// The methods the server answers.
#[derive(Debug, Clone, Copy, PartialEq, Eq, Structural)]
pub enum Method {
    Initialize,
    Initialized,
    ToolsList,
    ToolsCall,
    ResourcesList,
    ResourcesRead,
    PromptsList,
    PromptsGet,
}

pub open spec fn method_spec(name: Seq<char>) -> Option<Method> {
    if name == "initialize"@ {
        Some(Method::Initialize)
    } else if name == "initialized"@ {
        Some(Method::Initialized)
    } else if name == "tools/list"@ {
        Some(Method::ToolsList)
    } else if name == "tools/call"@ {
        Some(Method::ToolsCall)
    } else if name == "resources/list"@ {
        Some(Method::ResourcesList)
    } else if name == "resources/read"@ {
        Some(Method::ResourcesRead)
    } else if name == "prompts/list"@ {
        Some(Method::PromptsList)
    } else if name == "prompts/get"@ {
        Some(Method::PromptsGet)
    } else {
        None
    }
}

/// The method of that name.
pub fn method_of(name: &str) -> (r: Option<Method>)
    ensures
        r == method_spec(name@),
{
    if same_text(name, "initialize") {
        Some(Method::Initialize)
    } else if same_text(name, "initialized") {
        Some(Method::Initialized)
    } else if same_text(name, "tools/list") {
        Some(Method::ToolsList)
    } else if same_text(name, "tools/call") {
        Some(Method::ToolsCall)
    } else if same_text(name, "resources/list") {
        Some(Method::ResourcesList)
    } else if same_text(name, "resources/read") {
        Some(Method::ResourcesRead)
    } else if same_text(name, "prompts/list") {
        Some(Method::PromptsList)
    } else if same_text(name, "prompts/get") {
        Some(Method::PromptsGet)
    } else {
        None
    }
}

/// A request; its parameters are JSON text.
#[derive(Debug)]
pub struct JsonRpcRequest {
    pub id: Option<String>,
    pub method: String,
    pub params: String,
}

/// What a request leads to: an answer, or work that needs the engine.
#[derive(Debug)]
pub enum Outcome {
    Respond(JsonRpcResponse),
    /// Run the tool, then answer with `tool_reply`.
    CallTool { id: Option<String>, name: String },
    /// Read the resource, then answer with `resource_reply`.
    ReadResource { id: Option<String>, uri: String },
}

/// The server: what it exposes and the preset in charge.
#[derive(Debug)]
pub struct McpServer {
    pub expose: Vec<ExposeGroup>,
    pub preset: Option<String>,
    pub version: String,
}

/// The session once a request has been handled: an initialization tells who the client is.
pub open spec fn session_after(
    request: JsonRpcRequest,
    before: Option<(Seq<char>, Option<Seq<char>>)>,
) -> Option<(Seq<char>, Option<Seq<char>>)> {
    if method_spec(request.method@) == Some(Method::Initialize) {
        match json_string_at(request.params@, "/clientInfo/name"@) {
            Some(name) => Some((name, json_string_at(request.params@, "/clientInfo/version"@))),
            None => before,
        }
    } else {
        before
    }
}

/// What a line of the client leads to. A notification is handled and gets no reply.
#[derive(Debug)]
pub struct LineAnswer {
    pub outcome: Option<Outcome>,
    pub replies: bool,
}

/// A preset given on the command line goes before the configured one.
pub open spec fn preset_spec(
    configured: Option<Seq<char>>,
    preset_override: Option<Seq<char>>,
) -> Option<Seq<char>> {
    if preset_override is Some {
        preset_override
    } else {
        configured
    }
}

pub open spec fn or_text(given: Option<Seq<char>>, fallback: Seq<char>) -> Seq<char> {
    match given {
        Some(text) => text,
        None => fallback,
    }
}

fn or_default(given: Option<String>, fallback: &str) -> (r: String)
    ensures
        r@ == or_text(opt_text(given), fallback@),
{
    match given {
        Some(text) => text,
        None => fallback.to_owned(),
    }
}

pub open spec fn explain_codebase_text(repo: Seq<char>) -> Seq<char> {
    "Please explain the architecture and key components of the '"@ + repo
        + "' repository.\n\nUse the following tools to gather information:\n1. get_project_structure - to understand the directory layout\n2. find_symbols - to identify main types, functions, and modules\n3. get_file - to read key files like README, main entry points\n4. search_code - to find important patterns\n\nProvide a comprehensive overview including:\n- Project purpose and main functionality\n- Directory structure and organization\n- Key modules and their responsibilities\n- Main entry points and data flow\n- Dependencies and external integrations"@
}

pub open spec fn find_implementation_text(feature: Seq<char>, repo: Seq<char>) -> Seq<char> {
    "Please find where '"@ + feature + "' is implemented in the '"@ + repo
        + "' repository.\n\nUse the following tools to search:\n1. search_code - to find relevant code mentions\n2. find_symbols - to find related functions and types\n3. get_symbol_definition - to examine symbol implementations\n4. get_callers/get_callees - to understand call relationships\n5. get_file - to read the implementation files\n\nProvide:\n- The main file(s) where this feature is implemented\n- Key functions and types involved\n- How the implementation works\n- Any related or supporting code"@
}

pub open spec fn explain_description() -> Seq<char> {
    "Get an overview of a codebase's architecture and key components"@
}

pub open spec fn find_description() -> Seq<char> {
    "Find where a specific feature or algorithm is implemented"@
}

/// What `prompts/get` answers for a prompt name and arguments.
pub open spec fn is_prompt_reply(
    r: JsonRpcResponse,
    id: Option<String>,
    name: Option<Seq<char>>,
    repo: Option<Seq<char>>,
    feature: Option<Seq<char>>,
) -> bool {
    let repo_shown = or_text(repo, "<repository>"@);
    match name {
        None => r.is_error(id, -32602, "Missing required parameter: name"@),
        Some(n) => if n == "explain_codebase"@ {
            &&& r.result matches Some(Payload::PromptMessage { description, text })
            &&& description@ == explain_description()
            &&& text@ == explain_codebase_text(repo_shown)
            &&& r.is_success(id, r.result->Some_0)
        } else if n == "find_implementation"@ {
            &&& r.result matches Some(Payload::PromptMessage { description, text })
            &&& description@ == find_description()
            &&& text@ == find_implementation_text(or_text(feature, "<feature>"@), repo_shown)
            &&& r.is_success(id, r.result->Some_0)
        } else {
            r.is_error(id, -32602, "Unknown prompt: "@ + n)
        },
    }
}

pub open spec fn is_prompt_list(prompts: Seq<PromptInfo>) -> bool {
    &&& prompts.len() == 2
    &&& prompts[0].name@ == "explain_codebase"@
    &&& prompts[0].description@ == explain_description()
    &&& prompts[0].arguments@.len() == 1
    &&& prompts[0].arguments@[0].name@ == "repo"@
    &&& prompts[0].arguments@[0].description@ == "Repository to explain"@
    &&& prompts[0].arguments@[0].required
    &&& prompts[1].name@ == "find_implementation"@
    &&& prompts[1].description@ == find_description()
    &&& prompts[1].arguments@.len() == 2
    &&& prompts[1].arguments@[0].name@ == "repo"@
    &&& prompts[1].arguments@[0].description@ == "Repository to search"@
    &&& prompts[1].arguments@[0].required
    &&& prompts[1].arguments@[1].name@ == "feature"@
    &&& prompts[1].arguments@[1].description@ == "Feature or algorithm to find"@
    &&& prompts[1].arguments@[1].required
}

/// The entries of `known` for the enabled names, in the order of the names; a name
/// without an entry is passed over.
pub open spec fn listed_tools(
    enabled: Seq<Seq<char>>,
    known: Seq<(Seq<char>, Seq<char>, Seq<char>)>,
) -> Seq<(Seq<char>, Seq<char>, Seq<char>)>
    decreases enabled.len(),
{
    if enabled.len() == 0 {
        Seq::empty()
    } else {
        let front = listed_tools(enabled.drop_last(), known);
        match tool_named(known, enabled.last()) {
            Some(entry) => front.push(entry),
            None => front,
        }
    }
}

/// The first entry of that name.
pub open spec fn tool_named(
    known: Seq<(Seq<char>, Seq<char>, Seq<char>)>,
    name: Seq<char>,
) -> Option<(Seq<char>, Seq<char>, Seq<char>)>
    decreases known.len(),
{
    if known.len() == 0 {
        None
    } else if known[0].0 == name {
        Some(known[0])
    } else {
        tool_named(known.skip(1), name)
    }
}

pub open spec fn tool_texts(tools: Seq<ToolEntry>) -> Seq<(Seq<char>, Seq<char>, Seq<char>)> {
    tools.map_values(|t: ToolEntry| (t.name@, t.description@, t.input_schema@))
}

fn find_tool(known: &[ToolEntry], name: &str) -> (r: Option<ToolEntry>)
    ensures
        (match r {
            Some(t) => Some((t.name@, t.description@, t.input_schema@)),
            None => None,
        }) == tool_named(tool_texts(known@), name@),
{
    let ghost all = tool_texts(known@);
    let mut i: usize = 0;
    proof {
        assert(all.skip(0) =~= all);
    }
    while i < known.len()
        invariant
            i <= known@.len(),
            all == tool_texts(known@),
            tool_named(all, name@) == tool_named(all.skip(i as int), name@),
        decreases known@.len() - i,
    {
        proof {
            assert(all.skip(i as int)[0] == all[i as int]);
            assert(all.skip(i as int).skip(1) =~= all.skip(i + 1));
        }
        if same_text(known[i].name.as_str(), name) {
            return Some(
                ToolEntry {
                    name: known[i].name.clone(),
                    description: known[i].description.clone(),
                    input_schema: known[i].input_schema.clone(),
                },
            );
        }
        i = i + 1;
    }
    None
}

impl McpServer {
    /// A server that shares an engine: `preset_override` goes before the configured preset.
    pub fn from_arc(
        configured_preset: Option<String>,
        preset_override: Option<String>,
        expose: Vec<ExposeGroup>,
        version: String,
    ) -> (r: Self)
        ensures
            r.expose == expose,
            r.version == version,
            opt_text(r.preset) == preset_spec(
                opt_text(configured_preset),
                opt_text(preset_override),
            ),
    {
        let preset = if preset_override.is_some() {
            preset_override
        } else {
            configured_preset
        };
        McpServer { expose, preset, version }
    }

    /// Answers the handshake and remembers the client, where it names itself. Without a
    /// client name the session keeps what it held.
    pub fn initialize_with(
        &self,
        id: Option<String>,
        client_name: Option<String>,
        client_version: Option<String>,
        session: &mut SessionState,
    ) -> (r: JsonRpcResponse)
        ensures
            r.result matches Some(
                Payload::Initialize { protocol_version, server_name, server_version },
            ) && protocol_version@ == MCP_VERSION@ && server_name@ == SERVER_NAME@
                && server_version@ == self.version@,
            r.is_success(id, r.result->Some_0),
            final(session)@ == (match opt_text(client_name) {
                Some(name) => Some((name, opt_text(client_version))),
                None => old(session)@,
            }),
    {
        match client_name {
            Some(name) => {
                session.set_client_info(ClientInfo { name, version: client_version });
            },
            None => {},
        }
        JsonRpcResponse::success(
            id,
            Payload::Initialize {
                protocol_version: MCP_VERSION.to_owned(),
                server_name: SERVER_NAME.to_owned(),
                server_version: self.version.clone(),
            },
        )
    }

    /// Answers the handshake carried by `params`.
    pub fn handle_initialize(
        &self,
        id: Option<String>,
        params: &str,
        session: &mut SessionState,
    ) -> (r: JsonRpcResponse)
        ensures
            r.result matches Some(
                Payload::Initialize { protocol_version, server_name, server_version },
            ) && protocol_version@ == MCP_VERSION@ && server_name@ == SERVER_NAME@
                && server_version@ == self.version@,
            r.is_success(id, r.result->Some_0),
            final(session)@ == (match json_string_at(params@, "/clientInfo/name"@) {
                Some(name) => Some((name, json_string_at(params@, "/clientInfo/version"@))),
                None => old(session)@,
            }),
    {
        let name = read_json_string(params, "/clientInfo/name");
        let version = read_json_string(params, "/clientInfo/version");
        self.initialize_with(id, name, version, session)
    }

    /// Lists the enabled tools that have a description.
    pub fn handle_tools_list(
        &self,
        id: Option<String>,
        enabled: &[String],
        known: &[ToolEntry],
    ) -> (r: JsonRpcResponse)
        ensures
            r.result matches Some(Payload::Tools(tools)) && tool_texts(tools@) == listed_tools(
                crate::text::texts(enabled@),
                tool_texts(known@),
            ),
            r.is_success(id, r.result->Some_0),
    {
        let ghost names = crate::text::texts(enabled@);
        let mut tools: Vec<ToolEntry> = Vec::new();
        let mut i: usize = 0;
        proof {
            assert(names.take(0) =~= Seq::<Seq<char>>::empty());
            assert(tool_texts(tools@) =~= Seq::<(Seq<char>, Seq<char>, Seq<char>)>::empty());
        }
        while i < enabled.len()
            invariant
                i <= enabled@.len(),
                names == crate::text::texts(enabled@),
                tool_texts(tools@) == listed_tools(names.take(i as int), tool_texts(known@)),
            decreases enabled@.len() - i,
        {
            proof {
                assert(names.take(i + 1).drop_last() =~= names.take(i as int));
                assert(names.take(i + 1).last() == enabled@[i as int]@);
            }
            match find_tool(known, enabled[i].as_str()) {
                Some(tool) => {
                    proof {
                        assert(tool_texts(tools@.push(tool)) =~= tool_texts(tools@).push(
                            (tool.name@, tool.description@, tool.input_schema@),
                        ));
                    }
                    tools.push(tool);
                },
                None => {},
            }
            i = i + 1;
        }
        proof {
            assert(names.take(names.len() as int) =~= names);
        }
        JsonRpcResponse::success(id, Payload::Tools(tools))
    }

    /// The refusal of a tool call, where the tool is outside the exposed groups.
    pub fn refuse_tool(&self, id: Option<String>, tool: &str) -> (r: Result<
        Option<String>,
        JsonRpcResponse,
    >)
        ensures
            match expose_rejection_spec(self.expose@, tool@) {
                Some(message) => r matches Err(response) && response.is_error(id, -32000, message),
                None => r == Ok::<Option<String>, JsonRpcResponse>(id),
            },
    {
        match expose_rejection(self.expose.as_slice(), tool) {
            Some(message) => Err(JsonRpcResponse::error(id, -32000, message.as_str())),
            None => Ok(id),
        }
    }

    /// Lists the prompts.
    pub fn handle_prompts_list(&self, id: Option<String>) -> (r: JsonRpcResponse)
        ensures
            r.result matches Some(Payload::Prompts(prompts)) && is_prompt_list(prompts@),
            r.is_success(id, r.result->Some_0),
    {
        let mut explain_args: Vec<PromptArgument> = Vec::new();
        explain_args.push(
            PromptArgument {
                name: "repo".to_owned(),
                description: "Repository to explain".to_owned(),
                required: true,
            },
        );
        let mut find_args: Vec<PromptArgument> = Vec::new();
        find_args.push(
            PromptArgument {
                name: "repo".to_owned(),
                description: "Repository to search".to_owned(),
                required: true,
            },
        );
        find_args.push(
            PromptArgument {
                name: "feature".to_owned(),
                description: "Feature or algorithm to find".to_owned(),
                required: true,
            },
        );
        let mut prompts: Vec<PromptInfo> = Vec::new();
        prompts.push(
            PromptInfo {
                name: "explain_codebase".to_owned(),
                description:
                    "Get an overview of a codebase's architecture and key components".to_owned(),
                arguments: explain_args,
            },
        );
        prompts.push(
            PromptInfo {
                name: "find_implementation".to_owned(),
                description: "Find where a specific feature or algorithm is implemented".to_owned(),
                arguments: find_args,
            },
        );
        JsonRpcResponse::success(id, Payload::Prompts(prompts))
    }

    /// Renders a prompt for its name and arguments.
    pub fn prompt_reply(
        &self,
        id: Option<String>,
        name: Option<String>,
        repo: Option<String>,
        feature: Option<String>,
    ) -> (r: JsonRpcResponse)
        ensures
            is_prompt_reply(r, id, opt_text(name), opt_text(repo), opt_text(feature)),
    {
        let prompt_name = match name {
            Some(name) => name,
            None => {
                return JsonRpcResponse::error(id, -32602, "Missing required parameter: name");
            },
        };
        if same_text(prompt_name.as_str(), "explain_codebase") {
            let repo_shown = or_default(repo, "<repository>");
            let mut text =
                "Please explain the architecture and key components of the '".to_owned();
            text.append(repo_shown.as_str());
            text.append(
                "' repository.\n\nUse the following tools to gather information:\n1. get_project_structure - to understand the directory layout\n2. find_symbols - to identify main types, functions, and modules\n3. get_file - to read key files like README, main entry points\n4. search_code - to find important patterns\n\nProvide a comprehensive overview including:\n- Project purpose and main functionality\n- Directory structure and organization\n- Key modules and their responsibilities\n- Main entry points and data flow\n- Dependencies and external integrations",
            );
            JsonRpcResponse::success(
                id,
                Payload::PromptMessage {
                    description:
                        "Get an overview of a codebase's architecture and key components".to_owned(),
                    text,
                },
            )
        } else if same_text(prompt_name.as_str(), "find_implementation") {
            let repo_shown = or_default(repo, "<repository>");
            let feature_shown = or_default(feature, "<feature>");
            let mut text = "Please find where '".to_owned();
            text.append(feature_shown.as_str());
            text.append("' is implemented in the '");
            text.append(repo_shown.as_str());
            text.append(
                "' repository.\n\nUse the following tools to search:\n1. search_code - to find relevant code mentions\n2. find_symbols - to find related functions and types\n3. get_symbol_definition - to examine symbol implementations\n4. get_callers/get_callees - to understand call relationships\n5. get_file - to read the implementation files\n\nProvide:\n- The main file(s) where this feature is implemented\n- Key functions and types involved\n- How the implementation works\n- Any related or supporting code",
            );
            JsonRpcResponse::success(
                id,
                Payload::PromptMessage {
                    description:
                        "Find where a specific feature or algorithm is implemented".to_owned(),
                    text,
                },
            )
        } else {
            let mut message = "Unknown prompt: ".to_owned();
            message.append(prompt_name.as_str());
            JsonRpcResponse::error(id, -32602, message.as_str())
        }
    }

    /// Renders the prompt that `params` asks for.
    pub fn handle_prompts_get(&self, id: Option<String>, params: &str) -> (r: JsonRpcResponse)
        ensures
            is_prompt_reply(
                r,
                id,
                json_string_at(params@, "/name"@),
                json_string_at(params@, "/arguments/repo"@),
                json_string_at(params@, "/arguments/feature"@),
            ),
    {
        let name = read_json_string(params, "/name");
        let repo = read_json_string(params, "/arguments/repo");
        let feature = read_json_string(params, "/arguments/feature");
        self.prompt_reply(id, name, repo, feature)
    }

    /// What a request leads to.
    pub open spec fn leads_to(
        &self,
        request: JsonRpcRequest,
        enabled: Seq<Seq<char>>,
        known: Seq<(Seq<char>, Seq<char>, Seq<char>)>,
        r: Outcome,
    ) -> bool {
        match method_spec(request.method@) {
            None => r matches Outcome::Respond(response) && response.is_error(
                request.id,
                -32601,
                "Method not found: "@ + request.method@,
            ),
            Some(Method::Initialize) => r matches Outcome::Respond(response) && response.result
                matches Some(
                Payload::Initialize { protocol_version, server_name, server_version },
            ) && protocol_version@ == MCP_VERSION@ && server_name@ == SERVER_NAME@
                && server_version@ == self.version@ && response.is_success(
                request.id,
                response.result->Some_0,
            ),
            Some(Method::Initialized) => r matches Outcome::Respond(response)
                && response.is_success(request.id, Payload::Empty),
            Some(Method::ToolsList) => r matches Outcome::Respond(response) && response.result
                matches Some(Payload::Tools(tools)) && tool_texts(tools@) == listed_tools(
                enabled,
                known,
            ) && response.is_success(request.id, response.result->Some_0),
            Some(Method::ToolsCall) => {
                let tool = or_text(json_string_at(request.params@, "/name"@), ""@);
                match expose_rejection_spec(self.expose@, tool) {
                    Some(message) => r matches Outcome::Respond(response)
                        && response.is_error(request.id, -32000, message),
                    None => r matches Outcome::CallTool { id, name } && id == request.id
                        && name@ == tool,
                }
            },
            Some(Method::ResourcesList) => r matches Outcome::Respond(response)
                && response.is_success(request.id, Payload::Resources),
            Some(Method::ResourcesRead) => r matches Outcome::ReadResource { id, uri } && id
                == request.id && uri@ == or_text(json_string_at(request.params@, "/uri"@), ""@),
            Some(Method::PromptsList) => r matches Outcome::Respond(response) && response.result
                matches Some(Payload::Prompts(prompts)) && is_prompt_list(prompts@)
                && response.is_success(request.id, response.result->Some_0),
            Some(Method::PromptsGet) => r matches Outcome::Respond(response)
                && is_prompt_reply(
                response,
                request.id,
                json_string_at(request.params@, "/name"@),
                json_string_at(request.params@, "/arguments/repo"@),
                json_string_at(request.params@, "/arguments/feature"@),
            ),
        }
    }

    /// Routes a request: what needs no engine is answered, a tool call is refused or
    /// handed on, and an unknown method is an error that names it.
    pub fn dispatch(
        &self,
        request: JsonRpcRequest,
        session: &mut SessionState,
        enabled: &[String],
        known: &[ToolEntry],
    ) -> (r: Outcome)
        ensures
            self.leads_to(request, crate::text::texts(enabled@), tool_texts(known@), r),
            final(session)@ == session_after(request, old(session)@),
    {
        let params = request.params;
        match method_of(request.method.as_str()) {
            None => {
                let mut message = "Method not found: ".to_owned();
                message.append(request.method.as_str());
                Outcome::Respond(JsonRpcResponse::error(request.id, -32601, message.as_str()))
            },
            Some(Method::Initialize) => {
                Outcome::Respond(self.handle_initialize(request.id, params.as_str(), session))
            },
            Some(Method::Initialized) => {
                Outcome::Respond(JsonRpcResponse::success(request.id, Payload::Empty))
            },
            Some(Method::ToolsList) => {
                Outcome::Respond(self.handle_tools_list(request.id, enabled, known))
            },
            Some(Method::ToolsCall) => {
                let name = or_default(read_json_string(params.as_str(), "/name"), "");
                match self.refuse_tool(request.id, name.as_str()) {
                    Err(response) => Outcome::Respond(response),
                    Ok(id) => Outcome::CallTool { id, name },
                }
            },
            Some(Method::ResourcesList) => {
                Outcome::Respond(JsonRpcResponse::success(request.id, Payload::Resources))
            },
            Some(Method::ResourcesRead) => {
                let uri = or_default(read_json_string(params.as_str(), "/uri"), "");
                Outcome::ReadResource { id: request.id, uri }
            },
            Some(Method::PromptsList) => {
                Outcome::Respond(self.handle_prompts_list(request.id))
            },
            Some(Method::PromptsGet) => {
                Outcome::Respond(self.handle_prompts_get(request.id, params.as_str()))
            },
        }
    }
}

impl McpServer {
    /// Handles a line that holds something: a request, or what `serde_json` says of a text
    /// that is none. A notification is handled like a request, and a text that is neither is
    /// answered only where it carries an id.
    pub fn handle_line(
        &self,
        text: &str,
        parsed: Result<JsonRpcRequest, String>,
        session: &mut SessionState,
        enabled: &[String],
        known: &[ToolEntry],
    ) -> (r: LineAnswer)
        ensures
            match parsed {
                Ok(request) => {
                    &&& r.outcome matches Some(outcome) && self.leads_to(
                        request,
                        crate::text::texts(enabled@),
                        tool_texts(known@),
                        outcome,
                    )
                    &&& r.replies == wants_reply(opt_text(request.id))
                    &&& final(session)@ == session_after(request, old(session)@)
                },
                Err(e) => {
                    &&& final(session)@ == old(session)@
                    &&& match parse_error_id(json_value_at(text@, "/id"@)) {
                        None => r.outcome is None && !r.replies,
                        Some(id) => r.replies && (r.outcome matches Some(Outcome::Respond(response))
                            && opt_text(response.id) == Some(id) && response.is_error(
                            response.id,
                            -32700,
                            "Parse error: "@ + e@,
                        )),
                    }
                },
            },
    {
        match parsed {
            Ok(request) => {
                let replies = is_answered(&request.id);
                let outcome = self.dispatch(request, session, enabled, known);
                LineAnswer { outcome: Some(outcome), replies }
            },
            Err(e) => match parse_error_reply(text, e.as_str()) {
                Some(response) => LineAnswer {
                    outcome: Some(Outcome::Respond(response)),
                    replies: true,
                },
                None => LineAnswer { outcome: None, replies: false },
            },
        }
    }
}

// ---- tool results ----

/// A repository whose index is being updated, with the progress counters.
#[derive(Debug)]
pub struct IndexBusy {
    pub repo: String,
    pub indexed_repos: usize,
    pub total_repos: usize,
}

impl IndexBusy {
    pub open spec fn text(self) -> Seq<char> {
        "EAGAIN: index update in progress for "@ + self.repo@
            + " — waited 3s, retry the request ("@ + decimal(self.indexed_repos as nat) + "/"@
            + decimal(self.total_repos as nat) + " repos indexed)"@
    }

    /// The message shown to the caller.
    pub fn message(&self) -> (r: String)
        ensures
            r@ == self.text(),
    {
        let mut out = "EAGAIN: index update in progress for ".to_owned();
        out.append(self.repo.as_str());
        out.append(" — waited 3s, retry the request (");
        let done = usize_text(self.indexed_repos);
        out.append(done.as_str());
        out.append("/");
        let total = usize_text(self.total_repos);
        out.append(total.as_str());
        out.append(" repos indexed)");
        out
    }
}

/// Why a tool failed.
#[derive(Debug)]
pub enum ToolFailure {
    Busy(IndexBusy),
    Panicked(String),
    Other(String),
}

impl ToolFailure {
    pub open spec fn text(self) -> Seq<char> {
        match self {
            ToolFailure::Busy(busy) => busy.text(),
            ToolFailure::Panicked(tool) => "Internal error: tool '"@ + tool@ + "' panicked"@,
            ToolFailure::Other(message) => message@,
        }
    }

    pub open spec fn code(self) -> int {
        match self {
            ToolFailure::Busy(_) => JSONRPC_INDEX_BUSY as int,
            _ => -32000,
        }
    }
}

/// A tool error as a response. A repository whose index is mid-update gets its own code,
/// so a client can retry the request instead of reporting a failure.
pub fn tool_error_response(id: Option<String>, failure: &ToolFailure) -> (r: JsonRpcResponse)
    ensures
        r.is_error(id, failure.code(), failure.text()),
{
    match failure {
        ToolFailure::Busy(busy) => {
            let message = busy.message();
            JsonRpcResponse::error(id, JSONRPC_INDEX_BUSY, message.as_str())
        },
        ToolFailure::Panicked(tool) => {
            let mut message = "Internal error: tool '".to_owned();
            message.append(tool.as_str());
            message.append("' panicked");
            JsonRpcResponse::error(id, -32000, message.as_str())
        },
        ToolFailure::Other(message) => JsonRpcResponse::error(id, -32000, message.as_str()),
    }
}

/// The answer to a tool call that ran.
pub fn tool_reply(id: Option<String>, result: Result<String, ToolFailure>) -> (r: JsonRpcResponse)
    ensures
        match result {
            Ok(text) => r.is_success(id, Payload::ToolText(text)),
            Err(failure) => r.is_error(id, failure.code(), failure.text()),
        },
{
    match result {
        Ok(text) => JsonRpcResponse::success(id, Payload::ToolText(text)),
        Err(failure) => tool_error_response(id, &failure),
    }
}

/// The answer to a resource read that ran.
pub fn resource_reply(id: Option<String>, uri: String, result: Result<String, String>) -> (r:
    JsonRpcResponse)
    ensures
        match result {
            Ok(text) => r.is_success(id, (Payload::ResourceText { uri, text })),
            Err(message) => r.is_error(id, -32000, message@),
        },
{
    match result {
        Ok(text) => JsonRpcResponse::success(id, Payload::ResourceText { uri, text }),
        Err(message) => JsonRpcResponse::error(id, -32000, message.as_str()),
    }
}

/// A response carries a result or an error, never both and never neither.
pub proof fn law_a_response_is_a_result_or_an_error(
    r: JsonRpcResponse,
    id: Option<String>,
    result: Payload,
    code: int,
    message: Seq<char>,
)
    requires
        r.is_success(id, result) || r.is_error(id, code, message),
    ensures
        r.result is Some <==> r.error is None,
{
}

} // verus!
