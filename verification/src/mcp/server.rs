//! The agent protocol server's state and the routing of its messages.
use vstd::prelude::*;
use crate::indexer::chars_eq;
use crate::mcp::tools::{tool_table, McpTools};
use crate::text::chars_of;
use crate::json::{json_accepts, json_error_text, json_has_member, json_member, json_str_member, json_string_member};

verus! {

/// A tool as the server lists it; its input schema is JSON text.
#[derive(Debug, Clone)]
pub struct ToolSpec {
    pub name: String,
    pub description: String,
    pub input_schema: String,
}

pub struct ToolSpecView {
    pub name: Seq<char>,
    pub description: Seq<char>,
    pub input_schema: Seq<char>,
}

impl View for ToolSpec {
    type V = ToolSpecView;

    open spec fn view(&self) -> ToolSpecView {
        ToolSpecView { name: self.name@, description: self.description@, input_schema: self.input_schema@ }
    }
}

pub open spec fn tool_views(v: Seq<ToolSpec>) -> Seq<ToolSpecView> {
    v.map_values(|t: ToolSpec| t@)
}

/// The server: its name and version, its tools in registration order, and
/// whether the client has said it is initialised.
pub struct McpServer {
    name: String,
    version: String,
    tools: Vec<ToolSpec>,
    initialized: bool,
}

pub struct McpServerView {
    pub name: Seq<char>,
    pub version: Seq<char>,
    pub tools: Seq<ToolSpecView>,
    pub initialized: bool,
}

impl View for McpServer {
    type V = McpServerView;

    closed spec fn view(&self) -> McpServerView {
        McpServerView {
            name: self.name@,
            version: self.version@,
            tools: tool_views(self.tools@),
            initialized: self.initialized,
        }
    }
}

/// What a message asks of the server.
#[derive(Debug, Clone)]
pub enum McpStep {
    /// Answer with the server's description.
    Initialize,
    /// Answer with an empty object.
    Empty,
    /// Answer with the list of tools.
    ToolsList,
    /// Run the tool the parameters name.
    ToolsCall,
    /// Answer with this error.
    Fail { code: i64, message: String },
    /// Do not answer.
    Ignore,
}

/// The error code of an unknown method.
pub const METHOD_NOT_FOUND: i64 = -32601;

/// The error code of a failed call.
pub const INTERNAL_ERROR: i64 = -32603;

/// The error code of a line that is no JSON.
pub const PARSE_ERROR: i64 = -32700;

/// A step, with its message as text.
pub enum McpStepView {
    Initialize,
    Empty,
    ToolsList,
    ToolsCall,
    Fail(i64, Seq<char>),
    Ignore,
}

pub open spec fn step_view(s: McpStep) -> McpStepView {
    match s {
        McpStep::Initialize => McpStepView::Initialize,
        McpStep::Empty => McpStepView::Empty,
        McpStep::ToolsList => McpStepView::ToolsList,
        McpStep::ToolsCall => McpStepView::ToolsCall,
        McpStep::Fail { code, message } => McpStepView::Fail(code, message@),
        McpStep::Ignore => McpStepView::Ignore,
    }
}

/// The step for `method`; `has_id` tells whether the message is a request.
/// An unknown method fails with code -32601 when it is a request and is
/// ignored otherwise.
pub open spec fn spec_dispatch(method: Seq<char>, has_id: bool) -> McpStepView {
    if method == "initialize"@ {
        McpStepView::Initialize
    } else if method == "notifications/initialized"@ || method == "initialized"@ || method == "ping"@ {
        McpStepView::Empty
    } else if method == "tools/list"@ {
        McpStepView::ToolsList
    } else if method == "tools/call"@ {
        McpStepView::ToolsCall
    } else if has_id {
        McpStepView::Fail(METHOD_NOT_FOUND, "Method not found: "@ + method)
    } else {
        McpStepView::Ignore
    }
}

/// What a line read from the client asks for: it is not JSON (answered
/// with a parse error), it names no method (not answered), or it is a
/// request or notification for `method`, with its id and parameters as sent.
pub enum LineOutcome {
    ParseError(String),
    Ignore,
    Request { method: String, id: Option<serde_json::Value>, params: Option<serde_json::Value> },
}

/// Reads a line of the client.
pub fn request_from_line(line: &str) -> (r: LineOutcome)
    ensures
        match r {
            LineOutcome::ParseError(m) => !json_accepts(line@) && m@ == "Parse error: "@ + json_error_text(line@),
            LineOutcome::Ignore => json_accepts(line@) && json_string_member(line@, "method"@) is None,
            LineOutcome::Request { method, id, params } => {
                &&& json_accepts(line@)
                &&& json_string_member(line@, "method"@) == Some(method@)
                &&& (id is Some <==> json_has_member(line@, "id"@))
                &&& (params is Some <==> json_has_member(line@, "params"@))
            },
        },
{
    match json_str_member(line, "method") {
        Err(e) => {
            let mut m = String::from_str("Parse error: ");
            m.append(e.as_str());
            LineOutcome::ParseError(m)
        },
        Ok(None) => LineOutcome::Ignore,
        Ok(Some(method)) => {
            let id = json_member(line, "id");
            let params = json_member(line, "params");
            LineOutcome::Request { method, id, params }
        },
    }
}

/// How the outcome of a step is answered.
#[derive(Debug, Clone, Copy, PartialEq, Eq, Structural)]
pub enum Reply {
    /// A response carrying the result.
    Result,
    /// No message.
    Nothing,
    /// An error response with code -32603 and the failure's message.
    Error,
}

/// A successful outcome is answered only to a request; a failure always,
/// with the request's id or none.
pub fn reply_for(has_id: bool, succeeded: bool) -> (r: Reply)
    ensures
        r == if !succeeded {
            Reply::Error
        } else if has_id {
            Reply::Result
        } else {
            Reply::Nothing
        },
{
    if !succeeded {
        Reply::Error
    } else if has_id {
        Reply::Result
    } else {
        Reply::Nothing
    }
}

pub(crate) fn is(m: &Vec<char>, name: &str) -> (r: bool)
    ensures
        r == (m@ == name@),
{
    let n = chars_of(name);
    chars_eq(m.as_slice(), n.as_slice())
}

impl McpServer {
    pub fn new(name: &str, version: &str) -> (r: McpServer)
        ensures
            r@.name == name@,
            r@.version == version@,
            r@.tools.len() == 0,
            !r@.initialized,
    {
        let r = McpServer {
            name: String::from_str(name),
            version: String::from_str(version),
            tools: Vec::new(),
            initialized: false,
        };
        assert(r@.tools =~= Seq::<ToolSpecView>::empty());
        r
    }

    pub fn name(&self) -> (r: &str)
        ensures
            r@ == self@.name,
    {
        self.name.as_str()
    }

    pub fn version(&self) -> (r: &str)
        ensures
            r@ == self@.version,
    {
        self.version.as_str()
    }

    /// The registered tools, in registration order.
    pub fn tools(&self) -> (r: &Vec<ToolSpec>)
        ensures
            tool_views(r@) == self@.tools,
    {
        &self.tools
    }

    pub fn is_initialized(&self) -> (r: bool)
        ensures
            r == self@.initialized,
    {
        self.initialized
    }

    /// Adds a tool after the others.
    pub fn register_tool(&mut self, spec: ToolSpec)
        ensures
            final(self)@ == (McpServerView { tools: old(self)@.tools.push(spec@), ..old(self)@ }),
    {
        let ghost before = self@;
        self.tools.push(spec);
        assert(self@.tools =~= before.tools.push(spec@));
    }

    /// Adds every tool of `tools`, in the order of the tool table.
    pub fn register_all_tools(&mut self, tools: &McpTools)
        ensures
            final(self)@ == (McpServerView { tools: old(self)@.tools + tool_table(), ..old(self)@ }),
    {
        let all = tools.all_tools();
        let ghost start = self@;
        let mut i: usize = 0;
        assert(tool_table().take(0) =~= Seq::<ToolSpecView>::empty());
        assert(start.tools + tool_table().take(0) =~= start.tools);
        while i < all.len()
            invariant
                i <= all@.len(),
                tool_views(all@) == tool_table(),
                self@ == (McpServerView { tools: start.tools + tool_table().take(i as int), ..start }),
            decreases all@.len() - i,
        {
            let t = ToolSpec {
                name: all[i].name.clone(),
                description: all[i].description.clone(),
                input_schema: all[i].input_schema.clone(),
            };
            assert(t@ == tool_table()[i as int]);
            self.register_tool(t);
            assert(start.tools + tool_table().take(i + 1) =~= (start.tools + tool_table().take(i as int)).push(
                tool_table()[i as int],
            ));
            i = i + 1;
        }
        assert(tool_table().take(all@.len() as int) =~= tool_table());
    }

    pub fn tool_count(&self) -> (r: usize)
        ensures
            r == self@.tools.len(),
    {
        self.tools.len()
    }

    /// The step for a message with `method`; a notification that the client
    /// is initialised marks the server so.
    pub fn dispatch(&mut self, method: &str, has_id: bool) -> (r: McpStep)
        ensures
            final(self)@.name == old(self)@.name,
            final(self)@.version == old(self)@.version,
            final(self)@.tools == old(self)@.tools,
            final(self)@.initialized == (old(self)@.initialized || method@ == "notifications/initialized"@ || method@
                == "initialized"@),
            step_view(r) == spec_dispatch(method@, has_id),
    {
        let m = chars_of(method);
        proof {
            reveal_strlit("initialize");
            reveal_strlit("initialized");
            reveal_strlit("notifications/initialized");
            assert("initialize"@.len() != "initialized"@.len());
            assert("initialize"@.len() != "notifications/initialized"@.len());
        }
        if is(&m, "initialize") {
            McpStep::Initialize
        } else if is(&m, "notifications/initialized") || is(&m, "initialized") {
            self.initialized = true;
            McpStep::Empty
        } else if is(&m, "ping") {
            McpStep::Empty
        } else if is(&m, "tools/list") {
            McpStep::ToolsList
        } else if is(&m, "tools/call") {
            McpStep::ToolsCall
        } else if has_id {
            let mut message = String::from_str("Method not found: ");
            message.append(method);
            McpStep::Fail { code: METHOD_NOT_FOUND, message }
        } else {
            McpStep::Ignore
        }
    }

    /// The position of the first tool named `name`; the failure's message
    /// when no name is given or no tool has it.
    pub fn find_tool(&self, name: Option<&str>) -> (r: Result<usize, String>)
        ensures
            match name {
                None => r matches Err(m) && m@ == "Missing tool name"@,
                Some(n) => match r {
                    Ok(k) => k < self@.tools.len() && self@.tools[k as int].name == n@ && forall|j: int|
                        0 <= j < k ==> self@.tools[j].name != n@,
                    Err(m) => m@ == "Unknown tool: "@ + n@ && forall|j: int|
                        0 <= j < self@.tools.len() ==> self@.tools[j].name != n@,
                },
            },
    {
        match name {
            None => Err(String::from_str("Missing tool name")),
            Some(n) => {
                assert(name->0@ == n@);
                let nc = chars_of(n);
                let mut i: usize = 0;
                while i < self.tools.len()
                    invariant
                        i <= self.tools@.len(),
                        nc@ == n@,
                        name == Some(n),
                        forall|j: int| 0 <= j < i ==> #[trigger] self@.tools[j].name != n@,
                    decreases self.tools@.len() - i,
                {
                    let tc = chars_of(self.tools[i].name.as_str());
                    assert(self@.tools[i as int].name == self.tools@[i as int].name@);
                    if chars_eq(tc.as_slice(), nc.as_slice()) {
                        assert(self@.tools[i as int].name == n@);
                        assert(i < self@.tools.len());
                        return Ok(i);
                    }
                    i = i + 1;
                }
                let mut m = String::from_str("Unknown tool: ");
                m.append(n);
                Err(m)
            },
        }
    }
}

/// A directory is the NeoDOS root when its `AGENTS.md` (text `agents`,
/// `None` when missing or unreadable) mentions NeoDOS, or when it holds a
/// `neodos-kernel` directory.
pub fn is_neodos_root(agents: Option<&str>, has_kernel_dir: bool) -> (r: bool)
    ensures
        r == ((agents matches Some(a) && crate::text::contains(a@, "NeoDOS"@)) || has_kernel_dir),
{
    match agents {
        Some(a) => {
            let ac = chars_of(a);
            let key = chars_of("NeoDOS");
            if crate::text::contains_chars(ac.as_slice(), key.as_slice()) {
                return true;
            }
            has_kernel_dir
        },
        None => has_kernel_dir,
    }
}

} // verus!
