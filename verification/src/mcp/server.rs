//! The server: requests and what they are answered with.

use serde_json::Value;
use vstd::prelude::*;

use crate::json::{has_field, json, parsed_json, read_json, JsonView};
use crate::lines::{opt_text, trim, trimmed};
use crate::mcp::calls::{read_tool_call, requested_call, RpcError, RpcErrorView};
use crate::mcp::catalog::{catalog, list_tools, tool_views, ToolInfo};
use crate::mcp::core_rules::tool_failure;
use crate::mcp::dispatch::{call_tool, is_answered, space_after, ToolReply};
use crate::query::engine::QueryEngine;
use crate::text::{chars_of, same};

verus! {

/// What a client is told at first.
#[derive(Debug, Clone)]
pub struct ServerInfo {
    pub protocol_version: String,
    pub name: String,
    pub version: String,
}

/// What a request is answered with.
pub enum RpcReply {
    Initialized(ServerInfo),
    Tools(Vec<ToolInfo>),
    Tool(ToolReply),
    Pong,
}

/// Answers requests about a space.
pub struct SpecGraphenServer {
    pub query_engine: QueryEngine,
    pub store_path: Option<String>,
    pub space_id: Option<String>,
}

/// A piece of what a tool's result holds.
#[derive(Debug, Clone)]
pub struct ContentItem {
    pub kind: String,
    pub text: String,
}

/// The result of a tool that answers with a text: one piece of text.
pub fn text_content(text: String) -> (r: Vec<ContentItem>)
    ensures
        r@.len() == 1,
        r@[0].kind@ == "text"@,
        r@[0].text == text,
{
    let mut r: Vec<ContentItem> = Vec::new();
    r.push(ContentItem { kind: "text".to_owned(), text });
    r
}

/// A line that is to be answered: it is not blank, and it is no JSON value
/// without an identifier.
pub open spec fn is_request(line: Seq<char>) -> bool {
    trimmed(line).len() > 0 && match parsed_json(line) {
        Some(v) => v.has("id"@),
        None => true,
    }
}

/// A line that is to be answered, by what it stands for.
pub fn is_request_value(value: &Option<Value>) -> (r: bool)
    ensures
        r == match value {
            Some(v) => json(*v).has("id"@),
            None => true,
        },
{
    match value {
        Some(v) => has_field(v, "id"),
        None => true,
    }
}

/// Whether a line is to be answered.
pub fn needs_answer(line: &str) -> (r: bool)
    ensures
        r == is_request(line@),
{
    let chars = chars_of(line);
    if trim(chars.as_slice()).len() == 0 {
        return false;
    }
    is_request_value(&read_json(line))
}

pub open spec fn unknown_method(method: Seq<char>) -> RpcErrorView {
    RpcErrorView { code: -32601, message: "Method not found: "@ + method }
}

/// An answer to a request.
pub open spec fn is_reply(
    engine: QueryEngine,
    method: Seq<char>,
    params: JsonView,
    r: Result<RpcReply, RpcError>,
) -> bool {
    if method == "initialize"@ {
        r matches Ok(RpcReply::Initialized(info)) && info.protocol_version@ == "2024-11-05"@ && info.name@
            == "specgraphen"@ && info.version@ == "0.1.0"@
    } else if method == "tools/list"@ {
        r matches Ok(RpcReply::Tools(tools)) && tool_views(tools@) == catalog(
            engine.space().cells.len(),
            engine.space().links.len(),
        )
    } else if method == "tools/call"@ {
        match requested_call(params) {
            Ok(call) => match r {
                Ok(RpcReply::Tool(reply)) => is_answered(engine, call, Ok(reply)),
                Ok(_) => false,
                Err(e) => is_answered(engine, call, Err(e)),
            },
            Err(error) => r matches Err(e) && e@ == error,
        }
    } else if method == "ping"@ {
        r matches Ok(reply) && reply is Pong
    } else {
        r matches Err(e) && e@ == unknown_method(method)
    }
}

impl SpecGraphenServer {
    pub fn new(query_engine: QueryEngine) -> (r: Self)
        ensures
            r.query_engine == query_engine,
            r.store_path is None,
            r.space_id is None,
    {
        SpecGraphenServer { query_engine, store_path: None, space_id: None }
    }

    pub fn with_store(self, store_path: String, space_id: String) -> (r: Self)
        ensures
            r == (SpecGraphenServer { store_path: Some(store_path), space_id: Some(space_id), ..self }),
    {
        let mut r = self;
        r.store_path = Some(store_path);
        r.space_id = Some(space_id);
        r
    }

    /// Where spaces are stored, and under what name.
    pub fn store_target(&self) -> (r: Result<(&str, &str), RpcError>)
        ensures
            match (opt_text(self.store_path), opt_text(self.space_id)) {
                (Some(path), Some(id)) => r matches Ok(t) && t.0@ == path && t.1@ == id,
                _ => r matches Err(e) && e@ == tool_failure("Store path not configured"@),
            },
    {
        match (&self.store_path, &self.space_id) {
            (Some(path), Some(id)) => Ok((path.as_str(), id.as_str())),
            _ => Err(RpcError { code: -32000, message: "Store path not configured".to_owned() }),
        }
    }

    fn handle_initialize(&self) -> (r: ServerInfo)
        ensures
            r.protocol_version@ == "2024-11-05"@,
            r.name@ == "specgraphen"@,
            r.version@ == "0.1.0"@,
    {
        ServerInfo {
            protocol_version: "2024-11-05".to_owned(),
            name: "specgraphen".to_owned(),
            version: "0.1.0".to_owned(),
        }
    }

    fn handle_tools_list(&self) -> (r: Vec<ToolInfo>)
        ensures
            tool_views(r@) == catalog(
                self.query_engine.space().cells.len(),
                self.query_engine.space().links.len(),
            ),
    {
        let data = self.query_engine.space_data();
        assert(self.query_engine.space().cells.len() == data.cells@.len());
        assert(self.query_engine.space().links.len() == data.incidences@.len());
        list_tools(data.cells.len(), data.incidences.len())
    }

    /// Calls the tool that the parameters ask for.
    pub fn handle_tools_call(&mut self, params: &Value) -> (r: Result<ToolReply, RpcError>)
        ensures
            match requested_call(json(*params)) {
                Ok(call) => is_answered(old(self).query_engine, call, r) && final(self).query_engine.space()
                    == space_after(old(self).query_engine.space(), call),
                Err(error) => (r matches Err(e) && e@ == error) && final(self).query_engine == old(self).query_engine,
            },
            final(self).store_path == old(self).store_path,
            final(self).space_id == old(self).space_id,
    {
        match read_tool_call(params) {
            Ok(call) => call_tool(&mut self.query_engine, call),
            Err(e) => Err(e),
        }
    }

    /// Answers a request.
    pub fn handle_request(&mut self, method: &str, params: &Value) -> (r: Result<RpcReply, RpcError>)
        ensures
            is_reply(old(self).query_engine, method@, json(*params), r),
            final(self).query_engine.space() == if method@ == "tools/call"@ {
                match requested_call(json(*params)) {
                    Ok(call) => space_after(old(self).query_engine.space(), call),
                    Err(_) => old(self).query_engine.space(),
                }
            } else {
                old(self).query_engine.space()
            },
            final(self).store_path == old(self).store_path,
            final(self).space_id == old(self).space_id,
    {
        proof {
            reveal_strlit("initialize");
            reveal_strlit("tools/list");
            reveal_strlit("tools/call");
            reveal_strlit("ping");
            assert("tools/list"@[6] == 'l' && "tools/call"@[6] == 'c');
        }
        if same(method, "initialize") {
            Ok(RpcReply::Initialized(self.handle_initialize()))
        } else if same(method, "tools/list") {
            Ok(RpcReply::Tools(self.handle_tools_list()))
        } else if same(method, "tools/call") {
            match self.handle_tools_call(params) {
                Ok(reply) => Ok(RpcReply::Tool(reply)),
                Err(e) => Err(e),
            }
        } else if same(method, "ping") {
            Ok(RpcReply::Pong)
        } else {
            let mut message = "Method not found: ".to_owned();
            message.append(method);
            Err(RpcError { code: -32601, message })
        }
    }
}

} // verus!
