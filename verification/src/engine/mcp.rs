//! A client of MCP (Model Context Protocol) servers that talk over their standard streams.
//!
//! The servers are listed in `mcp.json` files, of the user and of the project. Each is started,
//! greeted and asked for its tools, which are then offered as `mcp_<server>_<tool>`. Without such
//! a file nothing happens.

use vstd::prelude::*;

use crate::catalog::{by_name, file, filed, filing_keeps_order, views, Named};
use crate::engine::plugins::{below_workspace, dirs_of, dirs_view, may_be_dirs, with_dirs};
use crate::engine::tools::{name_char, slug, slugged, ToolDef, ToolDefV};
use crate::json::{
    a_field_reads_back, fields_view, json_parse, jsons, no_field_to_read, obj, object, parse,
    render, view_of_parts, written, Json, JsonV,
};
use crate::paths::{is_absolute, join_path, plainly_relative};
use crate::text::{
    between, blank, copy_texts, decimal, decimal_of, join, join_of, opt_str, opt_text, same, texts,
    trim, trim_is_empty_iff_blank, trim_of, within,
};

verus! {

/// What the name of every MCP tool begins with.
pub const PREFIX: &'static str = "mcp_";

/// How long a server may take to answer, in seconds.
pub const RPC_TIMEOUT: u64 = 60;

/// How long a server may take to answer while it starts, in seconds.
pub const START_TIMEOUT: u64 = 20;

/// The version of the protocol that is spoken.
pub const PROTOCOL: &'static str = "2024-11-05";

// ---- requests and answers ----------------------------------------------------------------------

pub open spec fn request_value(id: u64, method: Seq<char>, params: JsonV) -> JsonV {
    obj().with_text("jsonrpc"@, "2.0"@).with("id"@, JsonV::Unsigned(id)).with_text(
        "method"@,
        method,
    ).with("params"@, params)
}

/// The line of a request.
pub fn request_line(id: u64, method: &str, params: Json) -> (r: String)
    ensures
        r@ == written(request_value(id, method@, params@)) + "\n"@,
{
    let v = object().with_text("jsonrpc", "2.0").with("id", Json::Unsigned(id)).with_text(
        "method",
        method,
    ).with("params", params);
    let mut s = render(&v);
    s.append("\n");
    s
}

/// The line that ends the greeting.
pub fn initialized_line() -> (r: String)
    ensures
        r@ == written(
            obj().with_text("jsonrpc"@, "2.0"@).with_text("method"@, "notifications/initialized"@),
        ) + "\n"@,
{
    let v = object().with_text("jsonrpc", "2.0").with_text("method", "notifications/initialized");
    let mut s = render(&v);
    s.append("\n");
    s
}

/// What a server is told when it is greeted.
pub fn initialize_params(version: &str) -> (r: Json)
    ensures
        r@ == obj().with_text("protocolVersion"@, PROTOCOL@).with("capabilities"@, obj()).with(
            "clientInfo"@,
            obj().with_text("name"@, "e"@).with_text("version"@, version@),
        ),
{
    object().with_text("protocolVersion", PROTOCOL).with("capabilities", object()).with(
        "clientInfo",
        object().with_text("name", "e").with_text("version", version),
    )
}

/// Whether a value answers request `id`. Notifications and log lines do not.
pub open spec fn answers(v: JsonV, id: u64) -> bool {
    v.unsigned_field("id"@) == Some(id)
}

/// The message of an error.
pub open spec fn error_message(e: JsonV) -> Seq<char> {
    match e.text_field("message"@) {
        Some(m) => m,
        None => "mcp error"@,
    }
}

/// Whether `r` is what a line says to request `id`: nothing, an error, or a result.
pub open spec fn reading(r: Option<Result<Json, String>>, line: Seq<char>, id: u64) -> bool {
    match json_parse(trim_of(line)) {
        Some(v) => if blank(line) || !answers(v, id) {
            r is None
        } else {
            match v.field("error"@) {
                Some(e) => r matches Some(Err(m)) && m@ == error_message(e),
                None => r matches Some(Ok(j)) && j@ == (match v.field("result"@) {
                    Some(x) => x,
                    None => JsonV::Null,
                }),
            }
        },
        None => r is None,
    }
}

/// What a line of a server says to request `id`; nothing where it answers another one or none.
pub fn read_line(line: &str, id: u64) -> (r: Option<Result<Json, String>>)
    ensures
        reading(r, line@, id),
{
    let t = trim(line);
    proof {
        trim_is_empty_iff_blank(line@);
    }
    if t.as_str().unicode_len() == 0 {
        return None;
    }
    match parse(t.as_str()) {
        Some(v) => {
            match v.get_u64("id") {
                Some(n) => {
                    if n != id {
                        return None;
                    }
                },
                None => {
                    return None;
                },
            }
            match v.get("error") {
                Some(e) => {
                    let m: String = match e.get_str("message") {
                        Some(m) => m,
                        None => "mcp error".to_string(),
                    };
                    Some(Err(m))
                },
                None => match v.get("result") {
                    Some(x) => Some(Ok(x.copy())),
                    None => Some(Ok(Json::Null)),
                },
            }
        },
        None => None,
    }
}

/// The error for a server that does not answer in time.
pub fn no_answer(server: &str, method: &str, seconds: u64) -> (r: String)
    ensures
        r@ == "'"@ + server@ + "' did not answer "@ + method@ + " within "@ + decimal_of(
            seconds as nat,
        ) + "s"@,
{
    let mut s = "'".to_string();
    s.append(server);
    s.append("' did not answer ");
    s.append(method);
    s.append(" within ");
    s.append(decimal(seconds).as_str());
    s.append("s");
    s
}

/// The error for a server that has ended.
pub fn exited(server: &str) -> (r: String)
    ensures
        r@ == "'"@ + server@ + "' exited"@,
{
    let mut s = "'".to_string();
    s.append(server);
    s.append("' exited");
    s
}

// ---- tools ----------------------------------------------------------------------------------------

/// A tool, as its server describes it.
#[derive(Debug)]
pub struct McpToolInfo {
    pub name: String,
    pub description: String,
    pub parameters: Json,
}

pub struct McpToolV {
    pub name: Seq<char>,
    pub description: Seq<char>,
    pub parameters: JsonV,
}

impl View for McpToolInfo {
    type V = McpToolV;

    open spec fn view(&self) -> McpToolV {
        McpToolV {
            name: self.name@,
            description: self.description@,
            parameters: self.parameters@,
        }
    }
}

pub open spec fn tools_view(v: Seq<McpToolInfo>) -> Seq<McpToolV> {
    Seq::new(v.len(), |i: int| v[i]@)
}

pub open spec fn or_empty(o: Option<Seq<char>>) -> Seq<char> {
    match o {
        Some(s) => s,
        None => Seq::empty(),
    }
}

pub open spec fn tool_in(t: JsonV) -> McpToolV {
    McpToolV {
        name: or_empty(t.text_field("name"@)),
        description: or_empty(t.text_field("description"@)),
        parameters: match t.field("inputSchema"@) {
            Some(p) => p,
            None => obj().with_text("type"@, "object"@),
        },
    }
}

/// The tools of a list that have a name.
pub open spec fn tools_in(list: Seq<JsonV>) -> Seq<McpToolV>
    decreases list.len(),
{
    if list.len() == 0 {
        Seq::empty()
    } else {
        let p = tools_in(list.drop_last());
        let t = tool_in(list.last());
        if t.name.len() > 0 {
            p.push(t)
        } else {
            p
        }
    }
}

/// The tools that a server lists.
pub open spec fn offered(result: JsonV) -> Seq<McpToolV> {
    match result.field("tools"@) {
        Some(JsonV::Array(list)) => tools_in(list),
        _ => Seq::empty(),
    }
}

fn text_or_empty(o: Option<String>) -> (r: String)
    ensures
        r@ == or_empty(opt_text(o)),
{
    match o {
        Some(s) => s,
        None => String::new(),
    }
}

/// The tools that a server lists.
pub fn list_tools(result: &Json) -> (r: Vec<McpToolInfo>)
    ensures
        tools_view(r@) == offered(result@),
{
    let mut out: Vec<McpToolInfo> = Vec::new();
    assert(tools_view(out@) =~= Seq::empty());
    match result.get("tools") {
        Some(v) => {
            match v.as_array() {
                Some(list) => {
                    let ghost l = jsons(list@);
                    let mut i: usize = 0;
                    assert(l.take(0) =~= Seq::empty());
                    while i < list.len()
                        invariant
                            i <= list.len(),
                            l == jsons(list@),
                            tools_view(out@) == tools_in(l.take(i as int)),
                        decreases list.len() - i,
                    {
                        assert(l.take(i + 1).drop_last() =~= l.take(i as int));
                        let t = &list[i];
                        let info = McpToolInfo {
                            name: text_or_empty(t.get_str("name")),
                            description: text_or_empty(t.get_str("description")),
                            parameters: match t.get("inputSchema") {
                                Some(p) => p.copy(),
                                None => object().with_text("type", "object"),
                            },
                        };
                        assert(info@ == tool_in(l[i as int]));
                        if info.name.as_str().unicode_len() > 0 {
                            let ghost before = tools_view(out@);
                            out.push(info);
                            assert(tools_view(out@) =~= before.push(info@));
                        }
                        i += 1;
                    }
                    assert(l.take(l.len() as int) =~= l);
                },
                None => {},
            }
        },
        None => {},
    }
    out
}

/// What a server is told when a tool is called.
pub fn call_params(tool: &str, args: Json) -> (r: Json)
    ensures
        r@ == obj().with_text("name"@, tool@).with("arguments"@, args@),
{
    object().with_text("name", tool).with("arguments", args)
}

/// The text of one item of an answer.
pub open spec fn item_text(item: JsonV) -> Seq<char> {
    if item.text_field("type"@) == Some("text"@) {
        or_empty(item.text_field("text"@))
    } else {
        Seq::empty()
    }
}

pub open spec fn items_text(items: Seq<JsonV>) -> Seq<char>
    decreases items.len(),
{
    if items.len() == 0 {
        Seq::empty()
    } else {
        items_text(items.drop_last()) + item_text(items.last())
    }
}

/// The text of an answer.
pub open spec fn answer_text(result: JsonV) -> Seq<char> {
    let t = match result.field("content"@) {
        Some(JsonV::Array(items)) => items_text(items),
        _ => Seq::empty(),
    };
    if blank(t) {
        "(no text content)"@
    } else {
        t
    }
}

/// Whether `r` is what a result says: its text, as an error where it says that it is one.
pub open spec fn says(r: Result<String, String>, result: JsonV) -> bool {
    match r {
        Ok(t) => t@ == answer_text(result) && result.field("isError"@) != Some(JsonV::Bool(true)),
        Err(t) => t@ == answer_text(result) && result.field("isError"@) == Some(JsonV::Bool(true)),
    }
}

/// What a call comes to.
pub fn call_outcome(result: &Json) -> (r: Result<String, String>)
    ensures
        says(r, result@),
{
    let mut text = String::new();
    assert(text@ =~= Seq::empty());
    match result.get("content") {
        Some(c) => {
            match c.as_array() {
                Some(items) => {
                    let ghost l = jsons(items@);
                    let mut i: usize = 0;
                    assert(l.take(0) =~= Seq::empty());
                    while i < items.len()
                        invariant
                            i <= items.len(),
                            l == jsons(items@),
                            text@ == items_text(l.take(i as int)),
                        decreases items.len() - i,
                    {
                        assert(l.take(i + 1).drop_last() =~= l.take(i as int));
                        let item = &items[i];
                        let ghost before = text@;
                        let plain: bool = match item.get_str("type") {
                            Some(ty) => same(ty.as_str(), "text"),
                            None => false,
                        };
                        if plain {
                            match item.get_str("text") {
                                Some(t) => {
                                    text.append(t.as_str());
                                },
                                None => {},
                            }
                        }
                        assert(text@ =~= before + item_text(l[i as int]));
                        i += 1;
                    }
                    assert(l.take(l.len() as int) =~= l);
                },
                None => {},
            }
        },
        None => {},
    }
    let t = trim(text.as_str());
    proof {
        trim_is_empty_iff_blank(text@);
    }
    if t.as_str().unicode_len() == 0 {
        text = "(no text content)".to_string();
    }
    let failed: bool = match result.get("isError") {
        Some(e) => match e.as_bool() {
            Some(b) => b,
            None => false,
        },
        None => false,
    };
    if failed {
        Err(text)
    } else {
        Ok(text)
    }
}

/// A tool of a server, under the name that the model knows it by.
#[derive(Debug)]
pub struct McpTool {
    pub server: String,
    pub tool: String,
    pub description: String,
    pub parameters: Json,
    pub qualified: String,
}

pub open spec fn qualified_name(server: Seq<char>, tool: Seq<char>) -> Seq<char> {
    PREFIX@ + slugged(server) + "_"@ + slugged(tool)
}

impl McpTool {
    /// A tool of a server. The name that the model knows it by holds only what providers accept,
    /// so that it is the name that everything else knows it by too.
    pub fn new(server: &str, info: McpToolInfo) -> (r: McpTool)
        ensures
            r.server@ == server@,
            r.tool@ == info.name@,
            r.description@ == info.description@,
            r.parameters@ == info.parameters@,
            r.qualified@ == qualified_name(server@, info.name@),
    {
        let mut q = PREFIX.to_string();
        q.append(slug(server).as_str());
        q.append("_");
        q.append(slug(info.name.as_str()).as_str());
        McpTool {
            server: server.to_string(),
            tool: info.name,
            description: info.description,
            parameters: info.parameters,
            qualified: q,
        }
    }

    /// The tool, as the model is told of it.
    pub fn definition(&self) -> (r: ToolDef)
        ensures
            r@ == (ToolDefV {
                name: self.qualified@,
                description: self.description@,
                parameters: self.parameters@,
                catalogue: false,
            }),
    {
        ToolDef {
            name: self.qualified.clone(),
            description: self.description.clone(),
            parameters: self.parameters.copy(),
            catalogue: false,
        }
    }
}

/// The name of a server's tool begins with the prefix and holds only what providers accept.
pub proof fn qualified_names_are_acceptable(server: Seq<char>, tool: Seq<char>)
    ensures
        crate::text::starts(qualified_name(server, tool), PREFIX@),
        forall|i: int|
            0 <= i < qualified_name(server, tool).len() ==> name_char(
                #[trigger] qualified_name(server, tool)[i],
            ),
{
    let q = qualified_name(server, tool);
    reveal_strlit("mcp_");
    reveal_strlit("_");
    assert(PREFIX@ == "mcp_"@);
    assert(q.take(PREFIX@.len() as int) =~= PREFIX@);
    let a = PREFIX@ + slugged(server);
    let b = a + "_"@;
    assert forall|i: int| 0 <= i < q.len() implies name_char(#[trigger] q[i]) by {
        if i < PREFIX@.len() {
            assert(q[i] == PREFIX@[i]);
        } else if i < a.len() {
            assert(q[i] == slugged(server)[i - PREFIX@.len()]);
        } else if i < b.len() {
            assert(q[i] == '_');
        } else {
            assert(q[i] == slugged(tool)[i - b.len()]);
        }
    }
}

// ---- the configuration --------------------------------------------------------------------------------

/// A server, as it is configured.
#[derive(Debug)]
pub struct ServerConf {
    pub name: String,
    pub command: String,
    pub args: Vec<String>,
    pub env: Vec<(String, String)>,
    pub cwd: String,
    pub disabled: bool,
    /// "global" or "project".
    pub scope: String,
}

pub struct ServerV {
    pub name: Seq<char>,
    pub command: Seq<char>,
    pub args: Seq<Seq<char>>,
    pub env: Seq<(Seq<char>, Seq<char>)>,
    pub cwd: Seq<char>,
    pub disabled: bool,
    pub scope: Seq<char>,
}

pub open spec fn pairs(v: Seq<(String, String)>) -> Seq<(Seq<char>, Seq<char>)> {
    Seq::new(v.len(), |i: int| (v[i].0@, v[i].1@))
}

impl View for ServerConf {
    type V = ServerV;

    open spec fn view(&self) -> ServerV {
        ServerV {
            name: self.name@,
            command: self.command@,
            args: texts(self.args@),
            env: pairs(self.env@),
            cwd: self.cwd@,
            disabled: self.disabled,
            scope: self.scope@,
        }
    }
}

impl Named for ServerConf {
    open spec fn name_in(v: ServerV) -> Seq<char> {
        v.name
    }

    fn name_ref(&self) -> (r: &String) {
        &self.name
    }
}

/// The texts of a list.
pub open spec fn texts_in(items: Seq<JsonV>) -> Seq<Seq<char>>
    decreases items.len(),
{
    if items.len() == 0 {
        Seq::empty()
    } else {
        let p = texts_in(items.drop_last());
        match items.last() {
            JsonV::Text(s) => p.push(s),
            _ => p,
        }
    }
}

/// The fields of an object that are texts.
pub open spec fn text_fields(fields: Seq<(Seq<char>, JsonV)>) -> Seq<(Seq<char>, Seq<char>)>
    decreases fields.len(),
{
    if fields.len() == 0 {
        Seq::empty()
    } else {
        let p = text_fields(fields.drop_last());
        match fields.last().1 {
            JsonV::Text(s) => p.push((fields.last().0, s)),
            _ => p,
        }
    }
}

/// A server as its entry describes it. It can be switched off in two ways: `"disabled": true`
/// and `"enabled": false`.
pub open spec fn conf_in(name: Seq<char>, conf: JsonV, scope: Seq<char>) -> ServerV {
    ServerV {
        name,
        command: or_empty(conf.text_field("command"@)),
        args: match conf.field("args"@) {
            Some(JsonV::Array(a)) => texts_in(a),
            _ => Seq::empty(),
        },
        env: match conf.field("env"@) {
            Some(JsonV::Object(f)) => text_fields(f),
            _ => Seq::empty(),
        },
        cwd: or_empty(conf.text_field("cwd"@)),
        disabled: conf.field("disabled"@) == Some(JsonV::Bool(true)) || conf.field("enabled"@)
            == Some(JsonV::Bool(false)),
        scope,
    }
}

/// The servers with those of an object.
pub open spec fn with_servers(
    servers: Seq<ServerV>,
    fields: Seq<(Seq<char>, JsonV)>,
    scope: Seq<char>,
) -> Seq<ServerV>
    decreases fields.len(),
{
    if fields.len() == 0 {
        servers
    } else {
        filed::<ServerConf>(
            with_servers(servers, fields.drop_last(), scope),
            conf_in(fields.last().0, fields.last().1, scope),
        )
    }
}

/// The servers with those of a file. A text that is no configuration adds none.
pub open spec fn with_file(servers: Seq<ServerV>, scope: Seq<char>, text: Seq<char>) -> Seq<ServerV> {
    match json_parse(text) {
        Some(cfg) => match cfg.field("servers"@) {
            Some(JsonV::Object(fields)) => with_servers(servers, fields, scope),
            _ => servers,
        },
        None => servers,
    }
}

/// The servers of all the files, by name. A later file shadows an earlier one.
pub open spec fn configured(files: Seq<(Seq<char>, Seq<char>)>) -> Seq<ServerV>
    decreases files.len(),
{
    if files.len() == 0 {
        Seq::empty()
    } else {
        with_file(configured(files.drop_last()), files.last().0, files.last().1)
    }
}

/// The files that servers are configured in, the user's first. A workspace that is relative has
/// none.
pub fn config_files(workspace: Option<&str>, home: Option<&str>) -> (r: Vec<(String, String)>)
    ensures
        may_be_dirs(dirs_view(r@), opt_str(workspace), opt_str(home), ".e/mcp.json"@),
{
    let project = below_workspace(workspace, ".e/mcp.json");
    let user: Option<String> = match home {
        Some(h) => Some(join_path(h, ".e/mcp.json")),
        None => None,
    };
    let ghost a = opt_text(user);
    let ghost b = opt_text(project);
    let r = with_dirs(user, project);
    assert(dirs_of(a, b) == dirs_view(r@));
    r
}

pub(crate) fn read_texts(items: &Vec<Json>) -> (r: Vec<String>)
    ensures
        texts(r@) == texts_in(jsons(items@)),
{
    let ghost l = jsons(items@);
    let mut out: Vec<String> = Vec::new();
    let mut i: usize = 0;
    assert(texts(out@) =~= texts_in(l.take(0)));
    while i < items.len()
        invariant
            i <= items.len(),
            l == jsons(items@),
            texts(out@) == texts_in(l.take(i as int)),
        decreases items.len() - i,
    {
        assert(l.take(i + 1).drop_last() =~= l.take(i as int));
        match &items[i] {
            Json::Text(s) => {
                let ghost before = texts(out@);
                out.push(s.clone());
                assert(texts(out@) =~= before.push(s@));
            },
            _ => {},
        }
        i += 1;
    }
    assert(l.take(l.len() as int) =~= l);
    out
}

fn read_fields(fields: &Vec<(String, Json)>) -> (r: Vec<(String, String)>)
    ensures
        pairs(r@) == text_fields(fields_view(fields@)),
{
    let ghost l = fields_view(fields@);
    let mut out: Vec<(String, String)> = Vec::new();
    let mut i: usize = 0;
    assert(pairs(out@) =~= text_fields(l.take(0)));
    while i < fields.len()
        invariant
            i <= fields.len(),
            l == fields_view(fields@),
            pairs(out@) == text_fields(l.take(i as int)),
        decreases fields.len() - i,
    {
        assert(l.take(i + 1).drop_last() =~= l.take(i as int));
        match &fields[i].1 {
            Json::Text(s) => {
                let ghost before = pairs(out@);
                out.push((fields[i].0.clone(), s.clone()));
                assert(pairs(out@) =~= before.push((fields@[i as int].0@, s@)));
            },
            _ => {},
        }
        i += 1;
    }
    assert(l.take(l.len() as int) =~= l);
    out
}

fn is_flag(v: Option<&Json>, want: bool) -> (r: bool)
    ensures
        r == (v matches Some(j) && j@ == JsonV::Bool(want)),
{
    match v {
        Some(j) => match j.as_bool() {
            Some(b) => b == want,
            None => false,
        },
        None => false,
    }
}

fn read_conf(name: &str, conf: &Json, scope: &str) -> (r: ServerConf)
    ensures
        r@ == conf_in(name@, conf@, scope@),
{
    let args: Vec<String> = match conf.get("args") {
        Some(v) => match v.as_array() {
            Some(a) => read_texts(a),
            None => Vec::new(),
        },
        None => Vec::new(),
    };
    let env: Vec<(String, String)> = match conf.get("env") {
        Some(v) => {
            proof {
                view_of_parts(*v);
            }
            match v {
                Json::Object(f) => read_fields(f),
                _ => Vec::new(),
            }
        },
        None => Vec::new(),
    };
    let off: bool = is_flag(conf.get("disabled"), true);
    let not_on: bool = is_flag(conf.get("enabled"), false);
    let r = ServerConf {
        name: name.to_string(),
        command: text_or_empty(conf.get_str("command")),
        args,
        env,
        cwd: text_or_empty(conf.get_str("cwd")),
        disabled: off || not_on,
        scope: scope.to_string(),
    };
    assert(r@.args =~= conf_in(name@, conf@, scope@).args);
    assert(r@.env =~= conf_in(name@, conf@, scope@).env);
    r
}

/// The servers of the files that could be read, each given by its scope and its text, by name. A
/// server of the project shadows one of the user.
pub fn read_config(files: &Vec<(String, String)>) -> (r: Vec<ServerConf>)
    ensures
        views(r@) == configured(pairs(files@)),
{
    let ghost fs = pairs(files@);
    let mut out: Vec<ServerConf> = Vec::new();
    let mut i: usize = 0;
    assert(views(out@) =~= configured(fs.take(0)));
    while i < files.len()
        invariant
            i <= files.len(),
            fs == pairs(files@),
            views(out@) == configured(fs.take(i as int)),
        decreases files.len() - i,
    {
        assert(fs.take(i + 1).drop_last() =~= fs.take(i as int));
        let ghost before = views(out@);
        match parse(files[i].1.as_str()) {
            Some(cfg) => {
                match cfg.get("servers") {
                    Some(v) => {
                        proof {
                            view_of_parts(*v);
                        }
                        match v {
                            Json::Object(fields) => {
                                let ghost f = fields_view(fields@);
                                let mut k: usize = 0;
                                assert(f.take(0) =~= Seq::empty());
                                while k < fields.len()
                                    invariant
                                        k <= fields.len(),
                                        i < files.len(),
                                        f == fields_view(fields@),
                                        views(out@) == with_servers(
                                            before,
                                            f.take(k as int),
                                            files@[i as int].0@,
                                        ),
                                    decreases fields.len() - k,
                                {
                                    assert(f.take(k + 1).drop_last() =~= f.take(k as int));
                                    let c = read_conf(
                                        fields[k].0.as_str(),
                                        &fields[k].1,
                                        files[i].0.as_str(),
                                    );
                                    file(&mut out, c);
                                    k += 1;
                                }
                                assert(f.take(f.len() as int) =~= f);
                            },
                            _ => {},
                        }
                    },
                    None => {},
                }
            },
            None => {},
        }
        i += 1;
    }
    assert(fs.take(fs.len() as int) =~= fs);
    out
}

proof fn servers_in_order(servers: Seq<ServerV>, fields: Seq<(Seq<char>, JsonV)>, scope: Seq<char>)
    requires
        by_name::<ServerConf>(servers),
    ensures
        by_name::<ServerConf>(with_servers(servers, fields, scope)),
    decreases fields.len(),
{
    if fields.len() > 0 {
        servers_in_order(servers, fields.drop_last(), scope);
        filing_keeps_order::<ServerConf>(
            with_servers(servers, fields.drop_last(), scope),
            conf_in(fields.last().0, fields.last().1, scope),
        );
    }
}

/// The servers stand by name, each name once, whatever the files hold.
pub proof fn configured_servers_are_in_order(files: Seq<(Seq<char>, Seq<char>)>)
    ensures
        by_name::<ServerConf>(configured(files)),
    decreases files.len(),
{
    if files.len() > 0 {
        configured_servers_are_in_order(files.drop_last());
        if let Some(cfg) = json_parse(files.last().1) {
            if let Some(JsonV::Object(fields)) = cfg.field("servers"@) {
                servers_in_order(configured(files.drop_last()), fields, files.last().0);
            }
        }
    }
}

// ---- running servers -------------------------------------------------------------------------------------

/// The command of a server, or the error where it has none.
pub fn command_of(conf: &ServerConf) -> (r: Result<String, String>)
    ensures
        match r {
            Ok(c) => !blank(conf@.command) && c@ == conf@.command,
            Err(e) => blank(conf@.command) && e@ == "no \"command\" in mcp.json"@,
        },
{
    let t = trim(conf.command.as_str());
    proof {
        trim_is_empty_iff_blank(conf.command@);
    }
    if t.as_str().unicode_len() == 0 {
        Err("no \"command\" in mcp.json".to_string())
    } else {
        Ok(conf.command.clone())
    }
}

/// The folder that a server is started in, given whether the path of the workspace is absolute:
/// its own, or else that of the project. Never the one that the program was started from.
pub open spec fn start_dir_of(
    cwd: Seq<char>,
    workspace: Option<Seq<char>>,
    absolute: bool,
) -> Option<Seq<char>> {
    if !blank(cwd) {
        Some(trim_of(cwd))
    } else {
        match workspace {
            Some(w) => if !blank(w) && absolute {
                Some(trim_of(w))
            } else {
                None
            },
            None => None,
        }
    }
}

/// The folder that a server is started in, once it is known whether the path of the workspace is
/// absolute.
pub fn start_dir_with(conf: &ServerConf, workspace: Option<&str>, absolute: bool) -> (r: Option<
    String,
>)
    ensures
        opt_text(r) == start_dir_of(
            conf@.cwd,
            opt_str(workspace),
            absolute,
        ),
{
    let cwd = trim(conf.cwd.as_str());
    proof {
        trim_is_empty_iff_blank(conf.cwd@);
    }
    if cwd.as_str().unicode_len() > 0 {
        return Some(cwd);
    }
    match workspace {
        Some(w) => {
            let ws = trim(w);
            proof {
                trim_is_empty_iff_blank(w@);
            }
            if ws.as_str().unicode_len() > 0 && absolute {
                Some(ws)
            } else {
                None
            }
        },
        None => None,
    }
}

/// The folder that a server is started in.
pub fn start_dir(conf: &ServerConf, workspace: Option<&str>) -> (r: Option<String>)
    ensures
        exists|absolute: bool|
            opt_text(r) == #[trigger] start_dir_of(
                conf@.cwd,
                opt_str(workspace),
                absolute,
            ),
        workspace matches Some(w) ==> plainly_relative(trim_of(w@)) ==> opt_text(r)
            == start_dir_of(conf@.cwd, opt_str(workspace), false),
{
    let absolute: bool = match workspace {
        Some(w) => is_absolute(trim(w).as_str()),
        None => false,
    };
    start_dir_with(conf, workspace, absolute)
}

/// What a configured server is doing.
#[derive(Debug)]
pub struct McpStatus {
    pub name: String,
    pub command: String,
    /// "global" or "project".
    pub scope: String,
    /// "starting", "ready", "disabled" or "error".
    pub state: String,
    pub tools: Vec<String>,
    pub error: String,
}

pub struct StatusV {
    pub name: Seq<char>,
    pub command: Seq<char>,
    pub scope: Seq<char>,
    pub state: Seq<char>,
    pub tools: Seq<Seq<char>>,
    pub error: Seq<char>,
}

impl View for McpStatus {
    type V = StatusV;

    open spec fn view(&self) -> StatusV {
        StatusV {
            name: self.name@,
            command: self.command@,
            scope: self.scope@,
            state: self.state@,
            tools: texts(self.tools@),
            error: self.error@,
        }
    }
}

impl Named for McpStatus {
    open spec fn name_in(v: StatusV) -> Seq<char> {
        v.name
    }

    fn name_ref(&self) -> (r: &String) {
        &self.name
    }
}

impl Clone for McpStatus {
    fn clone(&self) -> (r: McpStatus)
        ensures
            r@ == self@,
    {
        McpStatus {
            name: self.name.clone(),
            command: self.command.clone(),
            scope: self.scope.clone(),
            state: self.state.clone(),
            tools: copy_texts(&self.tools),
            error: self.error.clone(),
        }
    }
}

/// What a server is doing before it has been started.
pub open spec fn first_status(c: ServerV) -> StatusV {
    StatusV {
        name: c.name,
        command: trim_of(c.command + " "@ + join_of(c.args, " "@)),
        scope: c.scope,
        state: if c.disabled {
            "disabled"@
        } else {
            "starting"@
        },
        tools: Seq::empty(),
        error: Seq::empty(),
    }
}

pub open spec fn first_statuses(confs: Seq<ServerV>) -> Seq<StatusV> {
    Seq::new(confs.len(), |i: int| first_status(confs[i]))
}

/// What the servers are doing before they have been started.
pub fn starting(confs: &Vec<ServerConf>) -> (r: Vec<McpStatus>)
    ensures
        views(r@) == first_statuses(views(confs@)),
{
    let mut out: Vec<McpStatus> = Vec::new();
    let mut i: usize = 0;
    while i < confs.len()
        invariant
            i <= confs.len(),
            out@.len() == i,
            forall|k: int| 0 <= k < i ==> (#[trigger] out@[k])@ == first_status(confs@[k]@),
        decreases confs.len() - i,
    {
        let c = &confs[i];
        let mut line = c.command.clone();
        line.append(" ");
        line.append(join(&c.args, " ").as_str());
        let s = McpStatus {
            name: c.name.clone(),
            command: trim(line.as_str()),
            scope: c.scope.clone(),
            state: if c.disabled {
                "disabled".to_string()
            } else {
                "starting".to_string()
            },
            tools: Vec::new(),
            error: String::new(),
        };
        assert(s@.tools =~= Seq::empty());
        out.push(s);
        i += 1;
    }
    assert(views(out@) =~= first_statuses(views(confs@)));
    out
}

/// What became of starting a server.
#[derive(Debug)]
pub enum Started {
    /// It offers these tools.
    Ready(Vec<String>),
    /// It was started, and would not list its tools.
    NoTools(String),
    /// It could not be started.
    Failed(String),
}

/// The state, the tools and the error of a server once it has been started.
pub open spec fn outcome_of(s: StatusV, o: Started) -> StatusV {
    match o {
        Started::Ready(tools) => StatusV {
            state: "ready"@,
            tools: texts(tools@),
            error: Seq::empty(),
            ..s
        },
        Started::NoTools(e) => StatusV {
            state: "error"@,
            tools: Seq::empty(),
            error: "tools/list failed: "@ + e@,
            ..s
        },
        Started::Failed(e) => StatusV {
            state: "error"@,
            tools: Seq::empty(),
            error: e@,
            ..s
        },
    }
}

/// Notes what became of starting a server. One that is no longer configured is ignored.
pub fn started(all: &mut Vec<McpStatus>, name: &str, outcome: Started)
    ensures
        match crate::catalog::named::<McpStatus>(views(old(all)@), name@) {
            Some(i) => views(final(all)@) == views(old(all)@).update(
                i,
                outcome_of(views(old(all)@)[i], outcome),
            ),
            None => final(all)@ == old(all)@,
        },
{
    match crate::catalog::find_named(all, name) {
        Some(i) => {
            let ghost before = views(all@);
            let old_status = all[i].clone();
            let (state, tools, error): (String, Vec<String>, String) = match outcome {
                Started::Ready(tools) => ("ready".to_string(), tools, String::new()),
                Started::NoTools(e) => {
                    let mut s = "tools/list failed: ".to_string();
                    s.append(e.as_str());
                    ("error".to_string(), Vec::new(), s)
                },
                Started::Failed(e) => ("error".to_string(), Vec::new(), e),
            };
            let s = McpStatus {
                name: old_status.name,
                command: old_status.command,
                scope: old_status.scope,
                state,
                tools,
                error,
            };
            assert(s@.tools =~= outcome_of(before[i as int], outcome).tools);
            assert(s@ == outcome_of(before[i as int], outcome));
            all.set(i, s);
            assert(views(all@) =~= before.update(i as int, s@));
        },
        None => {},
    }
}

/// What the servers are doing.
pub fn status(all: &Vec<McpStatus>) -> (r: Vec<McpStatus>)
    ensures
        views(r@) == views(all@),
{
    let mut out: Vec<McpStatus> = Vec::new();
    let mut i: usize = 0;
    while i < all.len()
        invariant
            i <= all.len(),
            out@.len() == i,
            forall|k: int| 0 <= k < i ==> (#[trigger] out@[k])@ == all@[k]@,
        decreases all.len() - i,
    {
        out.push(all[i].clone());
        i += 1;
    }
    assert(views(out@) =~= views(all@));
    out
}

// ---- what a server is asked, and what it says ------------------------------------------------------------

/// A request has its number, its method and its parameters.
pub proof fn a_request_is_complete(id: u64, method: Seq<char>, params: JsonV)
    ensures
        ({
            let v = request_value(id, method, params);
            &&& v.field("jsonrpc"@) == Some(JsonV::Text("2.0"@))
            &&& v.field("id"@) == Some(JsonV::Unsigned(id))
            &&& v.field("method"@) == Some(JsonV::Text(method))
            &&& v.field("params"@) == Some(params)
        }),
{
    broadcast use a_field_reads_back, no_field_to_read;

    reveal_strlit("jsonrpc");
    reveal_strlit("id");
    reveal_strlit("method");
    reveal_strlit("params");
    assert("jsonrpc"@.len() == 7);
    assert("id"@.len() == 2);
    assert("method"@.len() == 6);
    assert("params"@.len() == 6);
    assert("method"@[0] == 'm' && "params"@[0] == 'p');
}

/// The answer to a request is the result that carries its number, or the message of the error that
/// does. Whatever carries another number, or none, is no answer.
pub proof fn an_answer_is_known_by_its_number(
    r: Option<Result<Json, String>>,
    line: Seq<char>,
    id: u64,
    v: JsonV,
)
    requires
        reading(r, line, id),
        !blank(line),
        json_parse(trim_of(line)) == Some(v),
    ensures
        v.field("id"@) != Some(JsonV::Unsigned(id)) ==> r is None,
        v.field("id"@) == Some(JsonV::Unsigned(id)) ==> r is Some,
        v.field("id"@) == Some(JsonV::Unsigned(id)) && v.field("error"@) is None ==> (
        v.field("result"@) matches Some(x) ==> (r matches Some(Ok(j)) && j@ == x)),
        v.field("id"@) == Some(JsonV::Unsigned(id)) ==> (v.field("error"@) matches Some(e) ==> (
        r matches Some(Err(m)) && (e.field("message"@) matches Some(JsonV::Text(t)) ==> m@ == t))),
{
}

/// Every tool that a server lists by a name is offered, in its order, with what the server says of
/// it. One without a name is none.
pub proof fn every_listed_tool_is_offered(a: Seq<JsonV>, b: Seq<JsonV>, t: JsonV)
    ensures
        tools_in(a + b) == tools_in(a) + tools_in(b),
        (t.field("name"@) matches Some(JsonV::Text(n)) ==> n.len() > 0 ==> {
            let r = tools_in(seq![t]);
            &&& r.len() == 1
            &&& r[0].name == n
            &&& t.field("description"@) matches Some(JsonV::Text(d)) ==> r[0].description == d
            &&& !(t.field("description"@) matches Some(JsonV::Text(_))) ==> r[0].description.len() == 0
            &&& t.field("inputSchema"@) matches Some(p) ==> r[0].parameters == p
            &&& t.field("inputSchema"@) is None ==> r[0].parameters == obj().with_text(
                "type"@,
                "object"@,
            )
        }),
        !(t.field("name"@) matches Some(JsonV::Text(n)) && n.len() > 0) ==> tools_in(seq![t]).len() == 0,
    decreases b.len(),
{
    assert(seq![t].drop_last() =~= Seq::empty());
    assert(tools_in(seq![t].drop_last()) =~= Seq::empty());
    if b.len() == 0 {
        assert(a + b =~= a);
    } else {
        every_listed_tool_is_offered(a, b.drop_last(), t);
        assert((a + b).drop_last() =~= a + b.drop_last());
    }
    assert(tools_in(a + b) =~= tools_in(a) + tools_in(b));
}

/// The tools of a listing are those under `tools`.
pub proof fn a_listing_holds_its_tools(result: JsonV, list: Seq<JsonV>)
    ensures
        result.field("tools"@) == Some(JsonV::Array(list)) ==> offered(result) == tools_in(list),
        !(result.field("tools"@) matches Some(JsonV::Array(_))) ==> offered(result).len() == 0,
{
}

/// The text of an answer is the text of all its items, one behind the other; what is no text adds
/// nothing. That there is none is said only where all of it is blank.
pub proof fn every_text_of_an_answer_counts(a: Seq<JsonV>, b: Seq<JsonV>, item: JsonV, result: JsonV)
    ensures
        items_text(a + b) == items_text(a) + items_text(b),
        item.field("type"@) == Some(JsonV::Text("text"@)) ==> (item.field("text"@) matches Some(
            JsonV::Text(t),
        ) ==> items_text(seq![item]) == t),
        item.field("type"@) != Some(JsonV::Text("text"@)) ==> items_text(seq![item]).len() == 0,
        result.field("content"@) == Some(JsonV::Array(a)) && !blank(items_text(a)) ==> answer_text(
            result,
        ) == items_text(a),
        result.field("content"@) == Some(JsonV::Array(a)) && blank(items_text(a)) ==> answer_text(
            result,
        ) == "(no text content)"@,
    decreases b.len(),
{
    assert(seq![item].drop_last() =~= Seq::empty());
    assert(items_text(seq![item].drop_last()) =~= Seq::empty());
    assert(items_text(seq![item]) =~= item_text(item));
    if b.len() == 0 {
        assert(a + b =~= a);
    } else {
        every_text_of_an_answer_counts(a, b.drop_last(), item, result);
        assert((a + b).drop_last() =~= a + b.drop_last());
    }
    assert(items_text(a + b) =~= items_text(a) + items_text(b));
}

/// The model knows a tool by its server and its name, as they are where providers accept them.
pub proof fn a_tool_is_known_by_server_and_name(server: Seq<char>, tool: Seq<char>)
    requires
        forall|i: int| 0 <= i < server.len() ==> name_char(#[trigger] server[i]),
        forall|i: int| 0 <= i < tool.len() ==> name_char(#[trigger] tool[i]),
    ensures
        qualified_name(server, tool) == "mcp_"@ + server + "_"@ + tool,
{
    assert(slugged(server) =~= server);
    assert(slugged(tool) =~= tool);
}

/// The arguments and the environment of a server are all the texts that are given for them, in their
/// order.
pub proof fn every_argument_is_passed_on(
    a: Seq<JsonV>,
    b: Seq<JsonV>,
    f: Seq<(Seq<char>, JsonV)>,
    g: Seq<(Seq<char>, JsonV)>,
    key: Seq<char>,
    s: Seq<char>,
    v: JsonV,
)
    ensures
        texts_in(a + b) == texts_in(a) + texts_in(b),
        texts_in(seq![JsonV::Text(s)]) == seq![s],
        !(v is Text) ==> texts_in(seq![v]).len() == 0,
        text_fields(f + g) == text_fields(f) + text_fields(g),
        text_fields(seq![(key, JsonV::Text(s))]) == seq![(key, s)],
        !(v is Text) ==> text_fields(seq![(key, v)]).len() == 0,
    decreases b.len() + g.len(),
{
    let one = seq![JsonV::Text(s)];
    assert(one.drop_last() =~= Seq::empty());
    assert(texts_in(one.drop_last()) =~= Seq::empty());
    assert(texts_in(one) =~= seq![s]);
    assert(seq![v].drop_last() =~= Seq::empty());
    assert(texts_in(seq![v].drop_last()) =~= Seq::empty());
    let pair = seq![(key, JsonV::Text(s))];
    assert(pair.drop_last() =~= Seq::empty());
    assert(text_fields(pair.drop_last()) =~= Seq::empty());
    assert(text_fields(pair) =~= seq![(key, s)]);
    assert(seq![(key, v)].drop_last() =~= Seq::empty());
    assert(text_fields(seq![(key, v)].drop_last()) =~= Seq::empty());
    if b.len() > 0 {
        every_argument_is_passed_on(a, b.drop_last(), f, g, key, s, v);
        assert((a + b).drop_last() =~= a + b.drop_last());
        assert(texts_in(a + b) =~= texts_in(a) + texts_in(b));
    } else {
        assert(a + b =~= a);
        assert(texts_in(a + b) =~= texts_in(a) + texts_in(b));
    }
    if g.len() > 0 {
        every_argument_is_passed_on(a, b, f, g.drop_last(), key, s, v);
        assert((f + g).drop_last() =~= f + g.drop_last());
        assert(text_fields(f + g) =~= text_fields(f) + text_fields(g));
    } else {
        assert(f + g =~= f);
        assert(text_fields(f + g) =~= text_fields(f) + text_fields(g));
    }
}

/// A server is configured as its entry says, field by field.
pub proof fn a_server_is_as_its_entry_says(name: Seq<char>, conf: JsonV, scope: Seq<char>)
    ensures
        ({
            let c = conf_in(name, conf, scope);
            &&& c.name == name
            &&& c.scope == scope
            &&& conf.field("command"@) matches Some(JsonV::Text(t)) ==> c.command == t
            &&& conf.field("cwd"@) matches Some(JsonV::Text(t)) ==> c.cwd == t
            &&& conf.field("args"@) matches Some(JsonV::Array(a)) ==> c.args == texts_in(a)
            &&& conf.field("env"@) matches Some(JsonV::Object(f)) ==> c.env == text_fields(f)
            &&& conf.field("args"@) is None ==> c.args.len() == 0
            &&& conf.field("env"@) is None ==> c.env.len() == 0
            &&& c.disabled <==> conf.field("disabled"@) == Some(JsonV::Bool(true)) || conf.field(
                "enabled"@,
            ) == Some(JsonV::Bool(false))
        }),
{
}

/// Every server that a file names is configured, by the last entry of its name; the others stay as
/// earlier files had them.
pub proof fn every_named_server_is_configured(
    files: Seq<(Seq<char>, Seq<char>)>,
    scope: Seq<char>,
    text: Seq<char>,
    fields: Seq<(Seq<char>, JsonV)>,
    k: int,
    other: ServerV,
)
    requires
        json_parse(text) is Some,
        json_parse(text)->Some_0.field("servers"@) == Some(JsonV::Object(fields)),
        0 <= k < fields.len(),
        forall|j: int| k < j < fields.len() ==> (#[trigger] fields[j]).0 != fields[k].0,
    ensures
        configured(files.push((scope, text))).contains(conf_in(fields[k].0, fields[k].1, scope)),
        configured(files).contains(other) && (forall|j: int|
            0 <= j < fields.len() ==> (#[trigger] fields[j]).0 != other.name) ==> configured(
            files.push((scope, text)),
        ).contains(other),
{
    let before = configured(files);
    configured_servers_are_in_order(files);
    assert(files.push((scope, text)).drop_last() =~= files);
    named_servers_are_there(before, fields, scope, k);
    if before.contains(other) && (forall|j: int|
        0 <= j < fields.len() ==> (#[trigger] fields[j]).0 != other.name) {
        other_servers_stay(before, fields, scope, other);
    }
}

proof fn other_servers_stay(
    servers: Seq<ServerV>,
    fields: Seq<(Seq<char>, JsonV)>,
    scope: Seq<char>,
    other: ServerV,
)
    requires
        by_name::<ServerConf>(servers),
        servers.contains(other),
        forall|j: int| 0 <= j < fields.len() ==> (#[trigger] fields[j]).0 != other.name,
    ensures
        with_servers(servers, fields, scope).contains(other),
    decreases fields.len(),
{
    if fields.len() > 0 {
        let d = fields.drop_last();
        assert forall|j: int| 0 <= j < d.len() implies (#[trigger] d[j]).0 != other.name by {
            assert(d[j] == fields[j]);
        }
        other_servers_stay(servers, d, scope, other);
        servers_in_order(servers, d, scope);
        let x = conf_in(fields.last().0, fields.last().1, scope);
        assert(fields[fields.len() - 1].0 != other.name);
        assert(ServerConf::name_in(other) == other.name);
        assert(ServerConf::name_in(x) == x.name);
        filing_keeps_order::<ServerConf>(with_servers(servers, d, scope), x);
    }
}

proof fn named_servers_are_there(
    servers: Seq<ServerV>,
    fields: Seq<(Seq<char>, JsonV)>,
    scope: Seq<char>,
    k: int,
)
    requires
        by_name::<ServerConf>(servers),
        0 <= k < fields.len(),
        forall|j: int| k < j < fields.len() ==> (#[trigger] fields[j]).0 != fields[k].0,
    ensures
        with_servers(servers, fields, scope).contains(conf_in(fields[k].0, fields[k].1, scope)),
    decreases fields.len(),
{
    let d = fields.drop_last();
    servers_in_order(servers, d, scope);
    let x = conf_in(fields.last().0, fields.last().1, scope);
    filing_keeps_order::<ServerConf>(with_servers(servers, d, scope), x);
    if k < fields.len() - 1 {
        assert(d[k] == fields[k]);
        assert forall|j: int| k < j < d.len() implies (#[trigger] d[j]).0 != d[k].0 by {
            assert(d[j] == fields[j]);
        }
        named_servers_are_there(servers, d, scope, k);
        assert(fields[fields.len() - 1].0 != fields[k].0);
        let y = conf_in(fields[k].0, fields[k].1, scope);
        assert(ServerConf::name_in(y) == y.name);
        assert(ServerConf::name_in(x) == x.name);
    }
}

/// A server is started in its own folder where it has one, or else in that of the project where that
/// is a place of its own.
pub proof fn a_server_starts_where_it_should(cwd: Seq<char>, w: Seq<char>, absolute: bool)
    ensures
        !blank(cwd) ==> start_dir_of(cwd, Some(w), absolute) == Some(trim_of(cwd)) && start_dir_of(
            cwd,
            None,
            absolute,
        ) == Some(trim_of(cwd)),
        blank(cwd) && !blank(w) && absolute ==> start_dir_of(cwd, Some(w), absolute) == Some(
            trim_of(w),
        ),
        blank(cwd) && (blank(w) || !absolute) ==> start_dir_of(cwd, Some(w), absolute) is None,
        blank(cwd) ==> start_dir_of(cwd, None, absolute) is None,
{
}

/// What becomes of starting a server is shown: the tools that it offers, or what went wrong; and it
/// goes on being shown under its name, its command and its scope.
pub proof fn what_became_of_a_server_is_shown(s: StatusV, o: Started)
    ensures
        ({
            let t = outcome_of(s, o);
            &&& t.name == s.name && t.command == s.command && t.scope == s.scope
            &&& o matches Started::Ready(tools) ==> t.state == "ready"@ && t.tools == texts(tools@)
                && t.error.len() == 0
            &&& o matches Started::NoTools(e) ==> t.state == "error"@ && within(e@, t.error)
                && t.tools.len() == 0
            &&& o matches Started::Failed(e) ==> t.state == "error"@ && t.error == e@ && t.tools.len()
                == 0
        }),
{
    match o {
        Started::NoTools(e) => {
            between("tools/list failed: "@, e@, Seq::empty(), "tools/list failed: "@ + e@);
        },
        _ => {},
    }
}

/// A server is shown with its name and its scope, and as starting unless it is off.
pub proof fn every_server_is_shown(confs: Seq<ServerV>, i: int)
    requires
        0 <= i < confs.len(),
    ensures
        first_statuses(confs).len() == confs.len(),
        first_statuses(confs)[i].name == confs[i].name,
        first_statuses(confs)[i].scope == confs[i].scope,
        first_statuses(confs)[i].command == trim_of(
            confs[i].command + " "@ + join_of(confs[i].args, " "@),
        ),
        first_statuses(confs)[i].state == if confs[i].disabled {
            "disabled"@
        } else {
            "starting"@
        },
        first_statuses(confs)[i].tools.len() == 0,
        first_statuses(confs)[i].error.len() == 0,
{
}

/// What an entry does not say is empty.
pub proof fn what_an_entry_does_not_say_is_empty(name: Seq<char>, conf: JsonV, scope: Seq<char>)
    ensures
        ({
            let c = conf_in(name, conf, scope);
            &&& !(conf.field("command"@) matches Some(JsonV::Text(_))) ==> c.command.len() == 0
            &&& !(conf.field("cwd"@) matches Some(JsonV::Text(_))) ==> c.cwd.len() == 0
            &&& !(conf.field("args"@) matches Some(JsonV::Array(_))) ==> c.args.len() == 0
            &&& !(conf.field("env"@) matches Some(JsonV::Object(_))) ==> c.env.len() == 0
        }),
{
}

/// What a tool says reaches the model, whether it succeeded or not, and fails exactly where the
/// server says that it did.
pub proof fn what_a_server_says_reaches_the_model(
    r: Result<String, String>,
    result: JsonV,
    items: Seq<JsonV>,
)
    requires
        says(r, result),
        result.field("content"@) == Some(JsonV::Array(items)),
        !blank(items_text(items)),
    ensures
        r is Err <==> result.field("isError"@) == Some(JsonV::Bool(true)),
        r matches Ok(t) ==> t@ == items_text(items),
        r matches Err(t) ==> t@ == items_text(items),
{
}

} // verus!
