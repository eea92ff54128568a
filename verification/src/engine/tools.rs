//! The tools: what the model is told of them, what it may ask of them, and what they answer.

use vstd::prelude::*;

use crate::bytes::{cut, cut_at, lossy, lossy_of};
use crate::catalog::{
    by_name, file, filed, filing_keeps_order, find_named, named, named_is_first, views, Named,
};
use crate::engine::jobs::{Taken, TakenV, MAX_WAIT};
use crate::engine::plugins::{PluginToolDef, PluginToolV};
use crate::engine::skills::{SkillMeta, SkillV};
use crate::json::{
    a_field_reads_back, array, jsons, lookup, no_field_to_read, obj, object, text_value, Json,
    JsonV,
};
use crate::paths::{
    a_path_keeps_its_ends, is_absolute, join_path, may_join, plainly_relative, verbatim,
};
use crate::text::{
    between, blank, byte_len, chars_of, decimal, decimal_of, ends, in_order, is_blank, join,
    join_of, joined_within, len_of, precedes, same, signed, signed_of, sorted, starts, starts_with,
    string_of, texts, trim, trim_end, trim_end_of, trim_is_empty_iff_blank, trim_of, within,
    within_whole,
};

verus! {

/// The most output, in bytes, that one command hands back.
pub const SYNC_MAX: usize = 100_000;

/// How long a command may run, in seconds, unless it runs in the background.
pub const SYNC_TIMEOUT: u64 = 120;

/// The most bytes of a file that are handed back.
pub const MAX_FILE: usize = 200_000;

/// What a tool comes to: its output, or what went wrong.
pub type ToolResult = Result<String, String>;

// ---- where tools work --------------------------------------------------------------------------

/// What every tool is told when it runs.
#[derive(Debug)]
pub struct ToolContext {
    pub workspace: String,
}

pub open spec fn no_folder_text() -> Seq<char> {
    "this chat has no project folder. Pick one for its project (sidebar → ✎)."@
}

pub open spec fn relative_text(ws: Seq<char>) -> Seq<char> {
    "project folder is a relative path ("@ + ws
        + "), so it would resolve differently depending on where the app was started. Pick a real folder for this project (sidebar → ✎)."@
}

pub open spec fn missing_text(ws: Seq<char>) -> Seq<char> {
    "workspace folder does not exist: "@ + ws
        + ". Pick an existing folder for this project (sidebar → + New project), or move the folder back."@
}

/// Whether `r` is the folder that tools work in, or why there is none.
pub open spec fn working_dir(
    r: Result<String, String>,
    ws: Seq<char>,
    absolute: bool,
    exists: bool,
) -> bool {
    match r {
        Ok(d) => ws.len() > 0 && absolute && exists && d@ == ws,
        Err(e) => if ws.len() == 0 {
            e@ == no_folder_text()
        } else if !absolute {
            e@ == relative_text(ws)
        } else {
            !exists && e@ == missing_text(ws)
        },
    }
}

impl ToolContext {
    /// The folder that tools work in, once it is known whether the path is absolute and whether
    /// the folder is there.
    pub fn dir_with(&self, absolute: bool, exists: bool) -> (r: Result<String, String>)
        ensures
            working_dir(r, self.workspace@, absolute, exists),
    {
        if self.workspace.as_str().unicode_len() == 0 {
            return Err(
                "this chat has no project folder. Pick one for its project (sidebar → ✎).".to_string(),
            );
        }
        if !absolute {
            let mut s = "project folder is a relative path (".to_string();
            s.append(self.workspace.as_str());
            s.append("), so it would resolve differently depending on where the app was started. Pick a real folder for this project (sidebar → ✎).");
            return Err(s);
        }
        if exists {
            return Ok(self.workspace.clone());
        }
        let mut s = "workspace folder does not exist: ".to_string();
        s.append(self.workspace.as_str());
        s.append(
            ". Pick an existing folder for this project (sidebar → + New project), or move the folder back.",
        );
        Err(s)
    }

    /// The folder that tools work in; `exists` says whether the folder is there. An empty or a
    /// relative path is refused rather than taken from the current directory, which would be
    /// some other folder each time the program is started from elsewhere.
    pub fn dir(&self, exists: bool) -> (r: Result<String, String>)
        ensures
            exists|absolute: bool| #[trigger] working_dir(r, self.workspace@, absolute, exists),
            plainly_relative(self.workspace@) ==> working_dir(r, self.workspace@, false, exists),
            self.workspace@.len() == 0 ==> r is Err,
            !exists ==> r is Err,
    {
        let absolute: bool = is_absolute(self.workspace.as_str());
        let r = self.dir_with(absolute, exists);
        assert(working_dir(r, self.workspace@, absolute, exists));
        r
    }

    /// The path that a tool was given, once it is known whether it is absolute, where tools work,
    /// and what joining the two gives.
    pub fn resolve_with(
        &self,
        path: &str,
        absolute: bool,
        dir: Result<String, String>,
        joined: &str,
    ) -> (r: Result<String, String>)
        ensures
            match r {
                Ok(p) => if absolute {
                    p@ == path@
                } else {
                    dir is Ok && p@ == joined@
                },
                Err(e) => !absolute && (dir matches Err(d) && e@ == d@),
            },
    {
        if absolute {
            return Ok(path.to_string());
        }
        match dir {
            Ok(_) => Ok(joined.to_string()),
            Err(e) => Err(e),
        }
    }

    /// The path that a tool was given: as it is where it is absolute, and otherwise in the folder
    /// that tools work in; `exists` says whether that folder is there. What is absolute, and what
    /// joining gives, is up to the machine.
    pub fn resolve(&self, path: &str, exists: bool) -> (r: Result<String, String>)
        ensures
            match r {
                Ok(p) => {
                    ||| !plainly_relative(path@) && p@ == path@
                    ||| {
                        &&& !plainly_relative(self.workspace@)
                        &&& exists
                        &&& may_join(self.workspace@, path@, p@)
                        &&& plainly_relative(path@) && !verbatim(self.workspace@) ==> starts(
                            p@,
                            self.workspace@,
                        ) && ends(p@, path@)
                    }
                },
                Err(e) => {
                    &&& exists|absolute: bool| #[trigger]
                        working_dir(Err(e), self.workspace@, absolute, exists)
                    &&& plainly_relative(self.workspace@) ==> working_dir(
                        Err(e),
                        self.workspace@,
                        false,
                        exists,
                    )
                },
            },
    {
        let absolute: bool = is_absolute(path);
        let dir = self.dir(exists);
        let joined = join_path(self.workspace.as_str(), path);
        let ghost ws = self.workspace@;
        assert(exists|absolute: bool| #[trigger] working_dir(dir, ws, absolute, exists));
        proof {
            if !verbatim(ws) {
                a_path_keeps_its_ends(ws, path@, joined@);
            }
        }
        match dir {
            Ok(d) => self.resolve_with(path, absolute, Ok(d), joined.as_str()),
            Err(e) => {
                assert(exists|absolute: bool| #[trigger]
                    working_dir(Err(e), self.workspace@, absolute, exists));
                assert(plainly_relative(ws) ==> working_dir(Err(e), ws, false, exists));
                if absolute {
                    Ok(path.to_string())
                } else {
                    Err(e)
                }
            },
        }
    }
}

// ---- the table ---------------------------------------------------------------------------------

/// A tool, as the model is told of it.
#[derive(Debug)]
pub struct ToolDef {
    pub name: String,
    pub description: String,
    /// The JSON schema of the arguments.
    pub parameters: Json,
    /// Whether the schema lists the skills that a project has.
    pub catalogue: bool,
}

pub struct ToolDefV {
    pub name: Seq<char>,
    pub description: Seq<char>,
    pub parameters: JsonV,
    pub catalogue: bool,
}

impl View for ToolDef {
    type V = ToolDefV;

    open spec fn view(&self) -> ToolDefV {
        ToolDefV {
            name: self.name@,
            description: self.description@,
            parameters: self.parameters@,
            catalogue: self.catalogue,
        }
    }
}

impl Named for ToolDef {
    open spec fn name_in(v: ToolDefV) -> Seq<char> {
        v.name
    }

    fn name_ref(&self) -> (r: &String) {
        &self.name
    }
}

/// The characters that providers accept in the name of a tool.
pub open spec fn name_char(c: char) -> bool {
    'a' <= c <= 'z' || 'A' <= c <= 'Z' || '0' <= c <= '9' || c == '_' || c == '-'
}

/// A text with every character that is not accepted made an underscore.
pub open spec fn slugged(s: Seq<char>) -> Seq<char> {
    Seq::new(
        s.len(),
        |i: int|
            if name_char(s[i]) {
                s[i]
            } else {
                '_'
            },
    )
}

/// The name that a tool is given.
pub open spec fn sanitized(name: Seq<char>) -> Seq<char> {
    if name.len() == 0 {
        "tool"@
    } else if name.len() > 64 {
        slugged(name).take(64)
    } else {
        slugged(name)
    }
}

/// Whether providers accept a name: 1 to 64 letters, digits, underscores and hyphens.
pub open spec fn proper_name(n: Seq<char>) -> bool {
    1 <= n.len() <= 64 && forall|i: int| 0 <= i < n.len() ==> name_char(#[trigger] n[i])
}

/// Every tool is given a name that providers accept, and such a name is kept.
pub proof fn sanitized_names_are_proper(name: Seq<char>)
    ensures
        proper_name(sanitized(name)),
        proper_name(name) ==> sanitized(name) == name,
{
    reveal_strlit("tool");
    if proper_name(name) {
        assert(sanitized(name) =~= name);
    }
}

/// A text with every character that providers do not accept made an underscore.
pub fn slug(s: &str) -> (r: String)
    ensures
        r@ == slugged(s@),
{
    let v = chars_of(s);
    let mut r = String::new();
    let mut i: usize = 0;
    while i < v.len()
        invariant
            i <= v.len(),
            v@ == s@,
            r@ == slugged(s@).take(i as int),
        decreases v.len() - i,
    {
        let c: char = v[i];
        if ('a' <= c && c <= 'z') || ('A' <= c && c <= 'Z') || ('0' <= c && c <= '9') || c == '_'
            || c == '-' {
            r.push(c);
        } else {
            r.push('_');
        }
        i += 1;
    }
    r
}

/// The tools, by name, and those of plugins.
#[derive(Debug)]
pub struct ToolRegistry {
    pub tools: Vec<ToolDef>,
    pub plugin_tools: Vec<PluginToolDef>,
}

pub struct RegistryV {
    pub tools: Seq<ToolDefV>,
    pub plugin_tools: Seq<PluginToolV>,
}

pub open spec fn plugin_views(v: Seq<PluginToolDef>) -> Seq<PluginToolV> {
    Seq::new(v.len(), |i: int| v[i]@)
}

impl View for ToolRegistry {
    type V = RegistryV;

    open spec fn view(&self) -> RegistryV {
        RegistryV { tools: views(self.tools@), plugin_tools: plugin_views(self.plugin_tools@) }
    }
}

/// The tools with one more, under the name that it is given.
pub open spec fn registered(tools: Seq<ToolDefV>, t: ToolDefV) -> Seq<ToolDefV> {
    filed::<ToolDef>(tools, ToolDefV { name: sanitized(t.name), ..t })
}

/// The tools whose names do not begin with `prefix`.
pub open spec fn without_prefix(tools: Seq<ToolDefV>, prefix: Seq<char>) -> Seq<ToolDefV>
    decreases tools.len(),
{
    if tools.len() == 0 {
        Seq::empty()
    } else if starts(tools.last().name, prefix) {
        without_prefix(tools.drop_last(), prefix)
    } else {
        without_prefix(tools.drop_last(), prefix).push(tools.last())
    }
}

/// Whether a name is taken by a tool that is not a plugin's. `shell` stays reserved: a plugin
/// must not put a generic shell back under that name.
pub open spec fn reserved(tools: Seq<ToolDefV>, name: Seq<char>) -> bool {
    named::<ToolDef>(tools, name) is Some || name == "shell"@
}

pub open spec fn has_plugin(kept: Seq<PluginToolV>, name: Seq<char>) -> bool {
    exists|i: int| 0 <= i < kept.len() && (#[trigger] kept[i]).name == name
}

pub open spec fn owner_of(d: PluginToolV) -> Seq<char> {
    if d.plugin.len() == 0 {
        "a plugin"@
    } else {
        "'"@ + d.plugin + "'"@
    }
}

/// What is kept of the tools that plugins ask for, and what they are told.
pub struct Intake {
    pub kept: Seq<PluginToolV>,
    pub told: Seq<Seq<char>>,
}

pub open spec fn taken_in(tools: Seq<ToolDefV>, defs: Seq<PluginToolV>) -> Intake
    decreases defs.len(),
{
    if defs.len() == 0 {
        Intake { kept: Seq::empty(), told: Seq::empty() }
    } else {
        let p = taken_in(tools, defs.drop_last());
        let d = defs.last();
        let name = sanitized(d.name);
        let owner = owner_of(d);
        if reserved(tools, name) {
            Intake {
                told: p.told.push(
                    owner + ": tool '"@ + name + "' is already a built-in tool"@,
                ),
                ..p
            }
        } else if has_plugin(p.kept, name) {
            Intake { told: p.told.push(owner + ": tool '"@ + name + "' is registered twice"@), ..p }
        } else {
            Intake {
                kept: p.kept.push(PluginToolV { name, ..d }),
                told: if d.name != name {
                    p.told.push(
                        owner + ": tool '"@ + d.name + "' was renamed to '"@ + name
                            + "' (a-z, 0-9, _ and - only)"@,
                    )
                } else {
                    p.told
                },
            }
        }
    }
}

/// The entry of a tool in a request: the properties and the required ones of its parameters,
/// where they are given.
pub open spec fn schema_entry(
    name: Seq<char>,
    description: Seq<char>,
    params: JsonV,
) -> JsonV {
    let p0 = obj().with_text("type"@, "object"@);
    let p1 = match params.field("properties"@) {
        Some(p) => p0.with("properties"@, p),
        None => p0,
    };
    let p2 = match params.field("required"@) {
        Some(r) => p1.with("required"@, r),
        None => p1,
    };
    obj().with_text("type"@, "function"@).with(
        "function"@,
        obj().with_text("name"@, name).with_text("description"@, description).with(
            "parameters"@,
            p2,
        ),
    )
}

/// The parameters of a tool for a project with these skills.
pub open spec fn parameters_for(t: ToolDefV, skills: Seq<SkillV>) -> JsonV {
    if t.catalogue && skills.len() > 0 {
        catalogue_parameters(skills)
    } else {
        t.parameters
    }
}

/// What a request says of the tools: those that are not plugins' in the order of their names,
/// then the plugins'.
pub open spec fn schema_of(r: RegistryV, skills: Seq<SkillV>) -> Seq<JsonV> {
    Seq::new(
        r.tools.len(),
        |i: int|
            schema_entry(r.tools[i].name, r.tools[i].description, parameters_for(r.tools[i], skills)),
    ) + Seq::new(
        r.plugin_tools.len(),
        |i: int|
            schema_entry(
                r.plugin_tools[i].name,
                r.plugin_tools[i].description,
                r.plugin_tools[i].parameters,
            ),
    )
}

fn schema_item(name: &str, description: &str, params: &Json) -> (r: Json)
    ensures
        r@ == schema_entry(name@, description@, params@),
{
    let mut p = object().with_text("type", "object");
    match params.get("properties") {
        Some(v) => {
            p = p.with("properties", v.copy());
        },
        None => {},
    }
    match params.get("required") {
        Some(v) => {
            p = p.with("required", v.copy());
        },
        None => {},
    }
    object().with_text("type", "function").with(
        "function",
        object().with_text("name", name).with_text("description", description).with(
            "parameters",
            p,
        ),
    )
}

/// Where a call goes.
#[derive(Debug)]
pub enum Route {
    /// To the tool with this index.
    Tool(usize),
    /// To a plugin.
    Plugin,
    /// Nowhere: there is no such tool.
    Unknown(String),
}

/// Whether a call goes to `r`: to a tool, else to a plugin, else nowhere.
pub open spec fn routed(r: Route, reg: RegistryV, name: Seq<char>) -> bool {
    match r {
        Route::Tool(i) => named::<ToolDef>(reg.tools, name) == Some(i as int),
        Route::Plugin => named::<ToolDef>(reg.tools, name) is None && has_plugin(
            reg.plugin_tools,
            name,
        ),
        Route::Unknown(e) => {
            &&& named::<ToolDef>(reg.tools, name) is None
            &&& !has_plugin(reg.plugin_tools, name)
            &&& e@ == "unknown tool: "@ + name + ". Available: "@ + join_of(
                names_of(reg.tools),
                ", "@,
            )
        },
    }
}

pub open spec fn names_of(tools: Seq<ToolDefV>) -> Seq<Seq<char>> {
    Seq::new(tools.len(), |i: int| tools[i].name)
}

/// The names that a model is told, in the order in which it is told them.
pub open spec fn advertised_names(r: RegistryV) -> Seq<Seq<char>> {
    names_of(r.tools) + Seq::new(r.plugin_tools.len(), |i: int| r.plugin_tools[i].name)
}

/// Whether no name is told to the model twice.
pub open spec fn advertises_once(r: RegistryV) -> bool {
    forall|i: int, j: int|
        0 <= i < j < advertised_names(r).len() ==> advertised_names(r)[i] != advertised_names(r)[j]
}

/// The name of the function that an entry of a request describes.
pub open spec fn schema_name(entry: JsonV) -> Seq<char> {
    match entry.field("function"@) {
        Some(f) => match f.text_field("name"@) {
            Some(n) => n,
            None => Seq::empty(),
        },
        None => Seq::empty(),
    }
}

impl ToolRegistry {
    /// The tools that are built in.
    pub fn new() -> (r: ToolRegistry)
        ensures
            r@ == (RegistryV { tools: built_ins(), plugin_tools: Seq::empty() }),
            orderly(r@.tools),
            advertises_once(r@),
    {
        proof {
            built_ins_are_orderly();
            nothing_beside_the_tools(built_ins());
        }
        let mut r = ToolRegistry { tools: Vec::new(), plugin_tools: Vec::new() };
        assert(views(r.tools@) =~= Seq::empty());
        assert(plugin_views(r.plugin_tools@) =~= Seq::empty());
        r.register(PowerShellTool.definition());
        r.register(ProcessPollTool.definition());
        r.register(ProcessKillTool.definition());
        r.register(ReadFileTool.definition());
        r.register(WriteFileTool.definition());
        r.register(ListDirTool.definition());
        r.register(SkillsTool.definition());
        r
    }

    /// Replaces the tools of plugins, and returns what the plugins are told. One that would
    /// shadow another tool is refused: a request must not hold a name twice, and the other tool
    /// would answer anyway.
    pub fn set_plugin_tools(&mut self, defs: Vec<PluginToolDef>) -> (r: Vec<String>)
        ensures
            final(self)@ == (RegistryV {
                plugin_tools: taken_in(old(self)@.tools, plugin_views(defs@)).kept,
                ..old(self)@
            }),
            texts(r@) == taken_in(old(self)@.tools, plugin_views(defs@)).told,
            orderly(old(self)@.tools) ==> orderly(final(self)@.tools),
            orderly(old(self)@.tools) ==> advertises_once(final(self)@),
    {
        proof {
            if orderly(self@.tools) {
                no_tool_is_advertised_twice(self@.tools, plugin_views(defs@));
            }
        }
        let ghost tools = self@.tools;
        let ghost all = plugin_views(defs@);
        let mut kept: Vec<PluginToolDef> = Vec::new();
        let mut told: Vec<String> = Vec::new();
        let mut i: usize = 0;
        assert(plugin_views(kept@) =~= taken_in(tools, all.take(0)).kept);
        assert(texts(told@) =~= taken_in(tools, all.take(0)).told);
        while i < defs.len()
            invariant
                i <= defs.len(),
                all == plugin_views(defs@),
                tools == views(self.tools@),
                *self == *old(self),
                plugin_views(kept@) == taken_in(tools, all.take(i as int)).kept,
                texts(told@) == taken_in(tools, all.take(i as int)).told,
            decreases defs.len() - i,
        {
            assert(all.take(i + 1).drop_last() =~= all.take(i as int));
            assert(all[i as int] == defs@[i as int]@);
            let mut d = defs[i].clone();
            let raw = d.name.clone();
            d.name = ToolRegistry::sanitize_tool_name(raw.as_str());
            let mut s = String::new();
            if d.plugin.as_str().unicode_len() == 0 {
                s = "a plugin".to_string();
            } else {
                s = "'".to_string();
                s.append(d.plugin.as_str());
                s.append("'");
            }
            let ghost t0 = texts(told@);
            let ghost k0 = plugin_views(kept@);
            if find_named(&self.tools, d.name.as_str()).is_some() || same(
                d.name.as_str(),
                "shell",
            ) {
                s.append(": tool '");
                s.append(d.name.as_str());
                s.append("' is already a built-in tool");
                told.push(s);
                assert(texts(told@) =~= t0.push(s@));
            } else if ToolRegistry::among(&kept, d.name.as_str()) {
                s.append(": tool '");
                s.append(d.name.as_str());
                s.append("' is registered twice");
                told.push(s);
                assert(texts(told@) =~= t0.push(s@));
            } else {
                if !same(raw.as_str(), d.name.as_str()) {
                    s.append(": tool '");
                    s.append(raw.as_str());
                    s.append("' was renamed to '");
                    s.append(d.name.as_str());
                    s.append("' (a-z, 0-9, _ and - only)");
                    told.push(s);
                    assert(texts(told@) =~= t0.push(s@));
                }
                kept.push(d);
                assert(plugin_views(kept@) =~= k0.push(d@));
            }
            i += 1;
        }
        assert(all.take(all.len() as int) =~= all);
        self.plugin_tools = kept;
        told
    }

    fn among(kept: &Vec<PluginToolDef>, name: &str) -> (r: bool)
        ensures
            r == has_plugin(plugin_views(kept@), name@),
    {
        let ghost v = plugin_views(kept@);
        let mut i: usize = 0;
        while i < kept.len()
            invariant
                i <= kept.len(),
                v == plugin_views(kept@),
                forall|k: int| 0 <= k < i ==> (#[trigger] v[k]).name != name@,
            decreases kept.len() - i,
        {
            assert(v[i as int] == kept@[i as int]@);
            if same(kept[i].name.as_str(), name) {
                return true;
            }
            i += 1;
        }
        false
    }

    /// Registers a tool under the name that it is given, in place of one that had it.
    pub fn register(&mut self, t: ToolDef)
        ensures
            final(self)@ == (RegistryV { tools: registered(old(self)@.tools, t@), ..old(self)@ }),
            orderly(old(self)@.tools) ==> orderly(final(self)@.tools),
    {
        proof {
            if orderly(self@.tools) {
                registering_keeps_names_proper(self@.tools, t@);
            }
        }
        let name = ToolRegistry::sanitize_tool_name(t.name.as_str());
        let t = ToolDef {
            name,
            description: t.description,
            parameters: t.parameters,
            catalogue: t.catalogue,
        };
        file(&mut self.tools, t);
    }

    /// The name that a tool is given: providers accept 1 to 64 letters, digits, underscores and
    /// hyphens.
    pub fn sanitize_tool_name(name: &str) -> (r: String)
        ensures
            r@ == sanitized(name@),
            proper_name(r@),
    {
        proof {
            sanitized_names_are_proper(name@);
        }
        let s = slug(name);
        let v = chars_of(s.as_str());
        if v.len() == 0 {
            return "tool".to_string();
        }
        if v.len() > 64 {
            assert(v@.subrange(0, 64) =~= slugged(name@).take(64));
            return string_of(&v, 0, 64);
        }
        s
    }

    /// Drops every tool whose name begins with `prefix`: what a server offered must not outlive
    /// the server.
    pub fn unregister_prefix(&mut self, prefix: &str)
        ensures
            final(self)@ == (RegistryV {
                tools: without_prefix(old(self)@.tools, prefix@),
                ..old(self)@
            }),
            orderly(old(self)@.tools) ==> orderly(final(self)@.tools),
            orderly(old(self)@.tools) && advertises_once(old(self)@) ==> advertises_once(
                final(self)@,
            ),
    {
        proof {
            if orderly(self@.tools) {
                without_prefix_facts(self@.tools, prefix@);
                if advertises_once(self@) {
                    retiring_keeps_names_apart(self@, prefix@);
                }
            }
        }
        let ghost t = self@.tools;
        let ghost mut gone: int = 0;
        let mut i: usize = 0;
        assert(views(self.tools@.take(0)) =~= without_prefix(t.take(0), prefix@));
        while i < self.tools.len()
            invariant
                i <= self.tools.len(),
                0 <= gone,
                self.tools@.len() + gone == t.len(),
                views(self.tools@.take(i as int)) == without_prefix(t.take(i + gone), prefix@),
                forall|k: int|
                    i <= k < self.tools@.len() ==> (#[trigger] self.tools@[k])@ == t[k + gone],
                self.plugin_tools == old(self).plugin_tools,
            decreases self.tools.len() - i,
        {
            assert(t.take(i + gone + 1).drop_last() =~= t.take(i + gone));
            assert(t.take(i + gone + 1).last() == self.tools@[i as int]@);
            let ghost before = self.tools@;
            if starts_with(self.tools[i].name.as_str(), prefix) {
                let _ = self.tools.remove(i);
                assert(self.tools@.take(i as int) =~= before.take(i as int));
                proof {
                    gone = gone + 1;
                }
                assert forall|k: int| i <= k < self.tools@.len() implies (
                #[trigger] self.tools@[k])@ == t[k + gone] by {
                    assert(self.tools@[k] == before[k + 1]);
                }
            } else {
                assert(views(self.tools@.take(i + 1)) =~= views(self.tools@.take(i as int)).push(
                    self.tools@[i as int]@,
                ));
                i += 1;
            }
        }
        assert(t.take(i + gone) =~= t);
        assert(self.tools@.take(i as int) =~= self.tools@);
    }

    /// The tool with a name.
    pub fn get(&self, name: &str) -> (r: Option<&ToolDef>)
        ensures
            match r {
                Some(t) => named::<ToolDef>(self@.tools, name@) matches Some(i) && t@
                    == self@.tools[i],
                None => named::<ToolDef>(self@.tools, name@) is None,
            },
    {
        match find_named(&self.tools, name) {
            Some(i) => Some(&self.tools[i]),
            None => None,
        }
    }

    /// Whether a plugin has a tool with a name.
    pub fn has_plugin_tool(&self, name: &str) -> (r: bool)
        ensures
            r == has_plugin(self@.plugin_tools, name@),
    {
        ToolRegistry::among(&self.plugin_tools, name)
    }

    /// The names of the tools, in order.
    pub fn names(&self) -> (r: Vec<String>)
        ensures
            texts(r@) == names_of(self@.tools),
    {
        let mut out: Vec<String> = Vec::new();
        let mut i: usize = 0;
        while i < self.tools.len()
            invariant
                i <= self.tools.len(),
                out@.len() == i,
                forall|k: int| 0 <= k < i ==> (#[trigger] out@[k])@ == self@.tools[k].name,
            decreases self.tools.len() - i,
        {
            out.push(self.tools[i].name.clone());
            i += 1;
        }
        assert(texts(out@) =~= names_of(self@.tools));
        out
    }

    /// What a request says of the tools, for a project with these skills. The order is always
    /// the same: it is part of every request, and providers cache by it.
    pub fn openai_schema(&self, skills: &Vec<SkillMeta>) -> (r: Vec<Json>)
        ensures
            jsons(r@) == schema_of(self@, views(skills@)),
            r@.len() == advertised_names(self@).len(),
            forall|i: int|
                0 <= i < r@.len() ==> schema_name((#[trigger] r@[i])@) == advertised_names(self@)[i],
    {
        proof {
            the_schema_names_the_tools(self@, views(skills@));
        }
        let ghost goal = schema_of(self@, views(skills@));
        let ghost n = self@.tools.len();
        let mut out: Vec<Json> = Vec::new();
        let mut i: usize = 0;
        assert(views(skills@).len() == skills@.len());
        while i < self.tools.len()
            invariant
                i <= self.tools.len(),
                n == self.tools@.len(),
                views(skills@).len() == skills@.len(),
                goal == schema_of(self@, views(skills@)),
                out@.len() == i,
                forall|k: int| 0 <= k < i ==> (#[trigger] out@[k])@ == goal[k],
            decreases self.tools.len() - i,
        {
            let t = &self.tools[i];
            assert(t@ == self@.tools[i as int]);
            let item = if t.catalogue && skills.len() > 0 {
                let p = skills_parameters(skills);
                schema_item(t.name.as_str(), t.description.as_str(), &p)
            } else {
                schema_item(t.name.as_str(), t.description.as_str(), &t.parameters)
            };
            assert(item@ == goal[i as int]);
            out.push(item);
            i += 1;
        }
        let mut j: usize = 0;
        while j < self.plugin_tools.len()
            invariant
                j <= self.plugin_tools.len(),
                n == self.tools@.len(),
                goal == schema_of(self@, views(skills@)),
                out@.len() == n + j,
                forall|k: int| 0 <= k < n + j ==> (#[trigger] out@[k])@ == goal[k],
            decreases self.plugin_tools.len() - j,
        {
            let t = &self.plugin_tools[j];
            assert(t@ == self@.plugin_tools[j as int]);
            let item = schema_item(t.name.as_str(), t.description.as_str(), &t.parameters);
            assert(item@ == goal[n + j]);
            out.push(item);
            j += 1;
        }
        assert(jsons(out@) =~= goal);
        out
    }

    /// Where a call goes: to a tool, else to a plugin, else nowhere.
    pub fn route(&self, name: &str) -> (r: Route)
        ensures
            routed(r, self@, name@),
    {
        match find_named(&self.tools, name) {
            Some(i) => {
                return Route::Tool(i);
            },
            None => {},
        }
        if self.has_plugin_tool(name) {
            return Route::Plugin;
        }
        let known = join(&self.names(), ", ");
        let mut e = "unknown tool: ".to_string();
        e.append(name);
        e.append(". Available: ");
        e.append(known.as_str());
        Route::Unknown(e)
    }
}

impl Default for ToolRegistry {
    fn default() -> (r: ToolRegistry)
        ensures
            r@ == (RegistryV { tools: built_ins(), plugin_tools: Seq::empty() }),
            orderly(r@.tools),
            advertises_once(r@),
    {
        ToolRegistry::new()
    }
}

// ---- schemas ---------------------------------------------------------------------------------------

pub open spec fn typed(kind: Seq<char>) -> JsonV {
    obj().with_text("type"@, kind)
}

pub open spec fn explained(kind: Seq<char>, description: Seq<char>) -> JsonV {
    obj().with_text("type"@, kind).with_text("description"@, description)
}

pub open spec fn text_list(list: Seq<Seq<char>>) -> JsonV {
    JsonV::Array(Seq::new(list.len(), |i: int| JsonV::Text(list[i])))
}

/// The schema of an object with these properties, of which some are required.
pub open spec fn params(properties: JsonV, required: Seq<Seq<char>>) -> JsonV {
    obj().with_text("type"@, "object"@).with("properties"@, properties).with(
        "required"@,
        text_list(required),
    )
}

fn typed_value(kind: &str) -> (r: Json)
    ensures
        r@ == typed(kind@),
{
    object().with_text("type", kind)
}

fn explained_value(kind: &str, description: &str) -> (r: Json)
    ensures
        r@ == explained(kind@, description@),
{
    object().with_text("type", kind).with_text("description", description)
}

fn text_list_value(list: &Vec<String>) -> (r: Json)
    ensures
        r@ == text_list(texts(list@)),
{
    let mut out: Vec<Json> = Vec::new();
    let mut i: usize = 0;
    while i < list.len()
        invariant
            i <= list.len(),
            out@.len() == i,
            forall|k: int| 0 <= k < i ==> (#[trigger] out@[k])@ == JsonV::Text(list@[k]@),
        decreases list.len() - i,
    {
        out.push(text_value(list[i].as_str()));
        i += 1;
    }
    assert(jsons(out@) =~= text_list(texts(list@))->Array_0);
    array(out)
}

fn params_value(properties: Json, required: &Vec<String>) -> (r: Json)
    ensures
        r@ == params(properties@, texts(required@)),
{
    object().with_text("type", "object").with("properties", properties).with(
        "required",
        text_list_value(required),
    )
}

fn just(a: &str) -> (r: Vec<String>)
    ensures
        texts(r@) == seq![a@],
{
    let mut v: Vec<String> = Vec::new();
    v.push(a.to_string());
    assert(texts(v@) =~= seq![a@]);
    v
}

// ---- the built-in tools --------------------------------------------------------------------------------

pub const SHELL_DESCRIPTION: &'static str = "Run a PowerShell command in the session workspace and return stdout, stderr and exit code. Blocks at most 120s; pass background:true for anything that may run longer (builds, deploys, dev servers) to start it as a background job and get a job id back immediately — then poll it with process_poll. Bash, cmd.exe, and POSIX shell syntax are not supported.";

pub const POLL_DESCRIPTION: &'static str = "Poll a background job started with powershell background:true. Blocks up to wait_ms (default 20000, max 25000) waiting for new output or exit, then returns the job's status and everything it printed since the previous poll. Prefer one long poll over repeated immediate ones, and do other work between polls instead of spinning.";

pub const KILL_DESCRIPTION: &'static str = "Kill a background job started with powershell background:true — the process and everything it spawned. Use when a job is stuck, failed, or no longer needed. Poll the id afterwards to see its final output.";

pub const READ_DESCRIPTION: &'static str = "Read a text file from the workspace and return its contents (truncated if huge).";

pub const WRITE_DESCRIPTION: &'static str = "Write text content to a file in the workspace, creating parent directories.";

pub const LIST_DESCRIPTION: &'static str = "List the entries of a directory in the workspace.";

pub const SKILLS_DESCRIPTION: &'static str = "Load a skill package (SKILL.md: workflow, setup instructions, reference docs) by name and return its contents. Skills teach specialised workflows on demand — load one before doing the work it describes.";

pub open spec fn powershell_def() -> ToolDefV {
    ToolDefV {
        name: "powershell"@,
        description: SHELL_DESCRIPTION@,
        parameters: params(
            obj().with(
                "command"@,
                explained("string"@, "The PowerShell command to execute."@),
            ).with(
                "background"@,
                explained(
                    "boolean"@,
                    "Run as a background job: return a job id immediately instead of blocking, then poll with process_poll."@,
                ),
            ),
            seq!["command"@],
        ),
        catalogue: false,
    }
}

pub open spec fn process_poll_def() -> ToolDefV {
    ToolDefV {
        name: "process_poll"@,
        description: POLL_DESCRIPTION@,
        parameters: params(
            obj().with(
                "id"@,
                explained("string"@, "Job id returned by powershell background:true."@),
            ).with(
                "wait_ms"@,
                explained(
                    "integer"@,
                    "How long to wait for new output or exit before reporting (ms). Default 20000, max 25000."@,
                ),
            ),
            seq!["id"@],
        ),
        catalogue: false,
    }
}

pub open spec fn process_kill_def() -> ToolDefV {
    ToolDefV {
        name: "process_kill"@,
        description: KILL_DESCRIPTION@,
        parameters: params(
            obj().with(
                "id"@,
                explained("string"@, "Job id returned by powershell background:true."@),
            ),
            seq!["id"@],
        ),
        catalogue: false,
    }
}

pub open spec fn read_file_def() -> ToolDefV {
    ToolDefV {
        name: "read_file"@,
        description: READ_DESCRIPTION@,
        parameters: params(obj().with("path"@, typed("string"@)), seq!["path"@]),
        catalogue: false,
    }
}

pub open spec fn write_file_def() -> ToolDefV {
    ToolDefV {
        name: "write_file"@,
        description: WRITE_DESCRIPTION@,
        parameters: params(
            obj().with("path"@, typed("string"@)).with("content"@, typed("string"@)),
            seq!["path"@, "content"@],
        ),
        catalogue: false,
    }
}

pub open spec fn list_dir_def() -> ToolDefV {
    ToolDefV {
        name: "list_dir"@,
        description: LIST_DESCRIPTION@,
        parameters: obj().with_text("type"@, "object"@).with(
            "properties"@,
            obj().with("path"@, explained("string"@, "Directory path, defaults to workspace."@)),
        ),
        catalogue: false,
    }
}

pub open spec fn skills_def() -> ToolDefV {
    ToolDefV {
        name: "skills"@,
        description: SKILLS_DESCRIPTION@,
        parameters: params(
            obj().with("name"@, explained("string"@, "Skill name"@)),
            seq!["name"@],
        ),
        catalogue: true,
    }
}

/// The tools of a new registry.
pub open spec fn built_ins() -> Seq<ToolDefV> {
    let t0 = Seq::<ToolDefV>::empty();
    let t1 = registered(t0, powershell_def());
    let t2 = registered(t1, process_poll_def());
    let t3 = registered(t2, process_kill_def());
    let t4 = registered(t3, read_file_def());
    let t5 = registered(t4, write_file_def());
    let t6 = registered(t5, list_dir_def());
    registered(t6, skills_def())
}

/// Runs a command.
#[derive(Debug)]
pub struct PowerShellTool;

/// Reports on a background job.
#[derive(Debug)]
pub struct ProcessPollTool;

/// Stops a background job with all that it has started.
#[derive(Debug)]
pub struct ProcessKillTool;

/// Reads a file.
#[derive(Debug)]
pub struct ReadFileTool;

/// Writes a file.
#[derive(Debug)]
pub struct WriteFileTool;

/// Lists a folder.
#[derive(Debug)]
pub struct ListDirTool;

/// Loads a skill.
#[derive(Debug)]
pub struct SkillsTool;

/// A text argument, or the error for one that is missing.
pub open spec fn text_argument(r: Result<String, String>, args: JsonV, key: Seq<char>) -> bool {
    match (r, args.text_field(key)) {
        (Ok(s), Some(t)) => s@ == t,
        (Err(e), None) => e@ == "missing '"@ + key + "'"@,
        _ => false,
    }
}

fn argument(args: &Json, key: &str) -> (r: Result<String, String>)
    ensures
        text_argument(r, args@, key@),
{
    match args.get_str(key) {
        Some(s) => Ok(s),
        None => {
            let mut e = "missing '".to_string();
            e.append(key);
            e.append("'");
            Err(e)
        },
    }
}

/// Whether `r` is the command that arguments ask for, and whether in the background.
pub open spec fn command_asked(r: Result<(String, bool), String>, args: JsonV) -> bool {
    match (r, args.text_field("command"@)) {
        (Ok((cmd, background)), Some(c)) => {
            &&& !blank(c)
            &&& cmd@ == trim_of(c)
            &&& background == (args.field("background"@) == Some(JsonV::Bool(true)))
        },
        (Err(e), Some(c)) => blank(c) && e@ == "empty command"@,
        (Err(e), None) => e@ == "missing 'command'"@,
        (Ok(_), None) => false,
    }
}

impl PowerShellTool {
    pub fn definition(&self) -> (r: ToolDef)
        ensures
            r@ == powershell_def(),
    {
        ToolDef {
            name: "powershell".to_string(),
            description: SHELL_DESCRIPTION.to_string(),
            parameters: params_value(
                object().with(
                    "command",
                    explained_value("string", "The PowerShell command to execute."),
                ).with(
                    "background",
                    explained_value(
                        "boolean",
                        "Run as a background job: return a job id immediately instead of blocking, then poll with process_poll.",
                    ),
                ),
                &just("command"),
            ),
            catalogue: false,
        }
    }

    /// The command to run, and whether in the background.
    pub fn prepare(&self, args: &Json) -> (r: Result<(String, bool), String>)
        ensures
            command_asked(r, args@),
    {
        match args.get_str("command") {
            Some(c) => {
                let cmd = trim(c.as_str());
                proof {
                    trim_is_empty_iff_blank(c@);
                }
                if cmd.as_str().unicode_len() == 0 {
                    return Err("empty command".to_string());
                }
                let background: bool = match args.get("background") {
                    Some(b) => match b.as_bool() {
                        Some(v) => v,
                        None => false,
                    },
                    None => false,
                };
                Ok((cmd, background))
            },
            None => Err("missing 'command'".to_string()),
        }
    }

    /// What the model is told of a job that was started.
    pub fn started(&self, id: &str) -> (r: String)
        ensures
            r@ == "[job "@ + id@
                + "] started in the background; the command keeps running.\nPoll with process_poll(id=\""@
                + id@
                + "\", wait_ms=20000) for progress — its wait blocks so one long poll beats many short ones — and stop it with process_kill(id=\""@
                + id@ + "\") if needed."@,
    {
        let mut s = "[job ".to_string();
        s.append(id);
        s.append("] started in the background; the command keeps running.\nPoll with process_poll(id=\"");
        s.append(id);
        s.append("\", wait_ms=20000) for progress — its wait blocks so one long poll beats many short ones — and stop it with process_kill(id=\"");
        s.append(id);
        s.append("\") if needed.");
        s
    }
}

/// The output of a command that ended: what it printed, the errors under a heading, how much
/// of either is missing, and the exit code.
pub open spec fn sync_text(out: TakenV, err: TakenV, code: int) -> Seq<char> {
    let a = if blank(out.text) {
        Seq::empty()
    } else {
        out.text
    };
    let b = if blank(err.text) {
        a
    } else {
        a + "\n[stderr]\n"@ + trim_end_of(err.text)
    };
    let c = if blank(b) {
        "(no output)"@
    } else {
        b
    };
    let d = if out.skipped > 0 {
        "[… truncated "@ + decimal_of(out.skipped as nat) + " earlier bytes of stdout]\n"@ + c
    } else {
        c
    };
    let e = if err.skipped > 0 {
        d + "\n[… "@ + decimal_of(err.skipped as nat) + " earlier bytes of stderr were truncated]"@
    } else {
        d
    };
    e + "\n[exit code "@ + signed_of(code) + "]"@
}

/// The output of a command that ended.
pub fn format_sync_output(out: &Taken, err: &Taken, code: i32) -> (r: String)
    ensures
        r@ == sync_text(out@, err@, code as int),
{
    let mut m = String::new();
    if !is_blank(out.text.as_str()) {
        m = out.text.clone();
    }
    assert(m@ =~= if blank(out@.text) { Seq::<char>::empty() } else { out@.text });
    if !is_blank(err.text.as_str()) {
        m.append("\n[stderr]\n");
        m.append(trim_end(err.text.as_str()).as_str());
    }
    if is_blank(m.as_str()) {
        m = "(no output)".to_string();
    }
    if out.skipped > 0 {
        let mut s = "[… truncated ".to_string();
        s.append(decimal(out.skipped as u64).as_str());
        s.append(" earlier bytes of stdout]\n");
        s.append(m.as_str());
        m = s;
    }
    if err.skipped > 0 {
        m.append("\n[… ");
        m.append(decimal(err.skipped as u64).as_str());
        m.append(" earlier bytes of stderr were truncated]");
    }
    m.append("\n[exit code ");
    m.append(signed(code).as_str());
    m.append("]");
    m
}

/// Whether `r` is what a command that ended comes to.
pub open spec fn command_ended(r: ToolResult, out: TakenV, err: TakenV, code: i32) -> bool {
    match r {
        Ok(t) => code == 0 && t@ == sync_text(out, err, 0),
        Err(t) => code != 0 && t@ == sync_text(out, err, code as int),
    }
}

/// What a command that ended comes to: an exit code other than 0 is an error.
pub fn finished(out: &Taken, err: &Taken, code: i32) -> (r: ToolResult)
    ensures
        command_ended(r, out@, err@, code),
{
    let m = format_sync_output(out, err, code);
    if code != 0 {
        Err(m)
    } else {
        Ok(m)
    }
}

/// What is said of a command that ran out of time: what it had printed by then.
pub open spec fn timeout_text(out: Seq<char>, err: Seq<char>) -> Seq<char> {
    let head =
        "command timed out after 120s and was killed (process tree terminated). Output before the kill:"@;
    if blank(out) && blank(err) {
        head + "\n(it printed nothing)"@
    } else {
        let a = if blank(out) {
            head
        } else {
            head + "\n"@ + out
        };
        if blank(err) {
            a
        } else {
            a + "\n[stderr]\n"@ + trim_end_of(err)
        }
    }
}

/// What is said of a command that ran out of time.
pub fn timed_out(out: &Taken, err: &Taken) -> (r: String)
    ensures
        r@ == timeout_text(out.text@, err.text@),
{
    let mut m = "command timed out after 120s and was killed (process tree terminated). Output before the kill:".to_string();
    let no_out: bool = is_blank(out.text.as_str());
    let no_err: bool = is_blank(err.text.as_str());
    if no_out && no_err {
        m.append("\n(it printed nothing)");
    } else {
        if !no_out {
            m.append("\n");
            m.append(out.text.as_str());
        }
        if !no_err {
            m.append("\n[stderr]\n");
            m.append(trim_end(err.text.as_str()).as_str());
        }
    }
    m
}

/// Whether `r` is the job that arguments ask to poll, and how long to wait.
pub open spec fn poll_asked(r: Result<(String, u64), String>, args: JsonV) -> bool {
    match (r, args.text_field("id"@)) {
        (Ok((id, wait)), Some(t)) => {
            &&& id@ == t
            &&& wait <= MAX_WAIT
            &&& wait == (match args.unsigned_field("wait_ms"@) {
                Some(w) => if w <= MAX_WAIT {
                    w
                } else {
                    MAX_WAIT
                },
                None => 20_000,
            })
        },
        (Err(e), None) => e@ == "missing '"@ + "id"@ + "'"@,
        _ => false,
    }
}

impl ProcessPollTool {
    pub fn definition(&self) -> (r: ToolDef)
        ensures
            r@ == process_poll_def(),
    {
        ToolDef {
            name: "process_poll".to_string(),
            description: POLL_DESCRIPTION.to_string(),
            parameters: params_value(
                object().with(
                    "id",
                    explained_value("string", "Job id returned by powershell background:true."),
                ).with(
                    "wait_ms",
                    explained_value(
                        "integer",
                        "How long to wait for new output or exit before reporting (ms). Default 20000, max 25000.",
                    ),
                ),
                &just("id"),
            ),
            catalogue: false,
        }
    }

    /// The job to poll, and how long to wait, in milliseconds.
    pub fn prepare(&self, args: &Json) -> (r: Result<(String, u64), String>)
        ensures
            poll_asked(r, args@),
    {
        let id = match argument(args, "id") {
            Ok(id) => id,
            Err(e) => {
                return Err(e);
            },
        };
        let wait: u64 = match args.get_u64("wait_ms") {
            Some(w) => if w <= MAX_WAIT {
                w
            } else {
                MAX_WAIT
            },
            None => 20_000,
        };
        Ok((id, wait))
    }
}

impl ProcessKillTool {
    pub fn definition(&self) -> (r: ToolDef)
        ensures
            r@ == process_kill_def(),
    {
        ToolDef {
            name: "process_kill".to_string(),
            description: KILL_DESCRIPTION.to_string(),
            parameters: params_value(
                object().with(
                    "id",
                    explained_value("string", "Job id returned by powershell background:true."),
                ),
                &just("id"),
            ),
            catalogue: false,
        }
    }

    /// The job to stop.
    pub fn prepare(&self, args: &Json) -> (r: Result<String, String>)
        ensures
            text_argument(r, args@, "id"@),
    {
        argument(args, "id")
    }
}

/// The text of a file, cut where it is larger than what is handed back.
pub open spec fn file_text(data: Seq<u8>) -> Seq<char> {
    if data.len() > MAX_FILE {
        cut(lossy_of(data), MAX_FILE as int) + "\n… (truncated "@ + decimal_of(
            (data.len() - MAX_FILE) as nat,
        ) + " bytes)"@
    } else {
        lossy_of(data)
    }
}

impl ReadFileTool {
    pub fn definition(&self) -> (r: ToolDef)
        ensures
            r@ == read_file_def(),
    {
        ToolDef {
            name: "read_file".to_string(),
            description: READ_DESCRIPTION.to_string(),
            parameters: params_value(
                object().with("path", typed_value("string")),
                &just("path"),
            ),
            catalogue: false,
        }
    }

    /// The file to read.
    pub fn prepare(&self, args: &Json) -> (r: Result<String, String>)
        ensures
            text_argument(r, args@, "path"@),
    {
        argument(args, "path")
    }

    /// The error for a path that is a folder.
    pub fn is_directory(&self, path: &str) -> (r: String)
        ensures
            r@ == path@ + " is a directory, use list_dir"@,
    {
        let mut s = path.to_string();
        s.append(" is a directory, use list_dir");
        s
    }

    /// The text of a file with these bytes.
    pub fn text(&self, data: &[u8]) -> (r: String)
        ensures
            r@ == file_text(data@),
    {
        let t = lossy(data);
        if data.len() > MAX_FILE {
            let mut s = cut_at(t.as_str(), MAX_FILE);
            s.append("\n… (truncated ");
            s.append(decimal((data.len() - MAX_FILE) as u64).as_str());
            s.append(" bytes)");
            s
        } else {
            t
        }
    }
}

/// Whether `r` is the file that arguments ask to be written, and what is to be written there.
pub open spec fn write_asked(r: Result<(String, String), String>, args: JsonV) -> bool {
    match r {
        Ok((path, content)) => args.text_field("path"@) == Some(path@) && args.text_field(
            "content"@,
        ) == Some(content@),
        Err(e) => if args.text_field("path"@) is None {
            e@ == "missing '"@ + "path"@ + "'"@
        } else {
            args.text_field("content"@) is None && e@ == "missing '"@ + "content"@ + "'"@
        },
    }
}

impl WriteFileTool {
    pub fn definition(&self) -> (r: ToolDef)
        ensures
            r@ == write_file_def(),
    {
        let mut required: Vec<String> = Vec::new();
        required.push("path".to_string());
        required.push("content".to_string());
        assert(texts(required@) =~= seq!["path"@, "content"@]);
        ToolDef {
            name: "write_file".to_string(),
            description: WRITE_DESCRIPTION.to_string(),
            parameters: params_value(
                object().with("path", typed_value("string")).with(
                    "content",
                    typed_value("string"),
                ),
                &required,
            ),
            catalogue: false,
        }
    }

    /// The file to write, and what to write there.
    pub fn prepare(&self, args: &Json) -> (r: Result<(String, String), String>)
        ensures
            write_asked(r, args@),
    {
        let path = match argument(args, "path") {
            Ok(p) => p,
            Err(e) => {
                return Err(e);
            },
        };
        match argument(args, "content") {
            Ok(c) => Ok((path, c)),
            Err(e) => Err(e),
        }
    }

    /// What the model is told of a file that was written.
    pub fn written(&self, path: &str, content: &str) -> (r: String)
        ensures
            r@ == "wrote "@ + decimal_of(byte_len(content@)) + " bytes to "@ + path@,
    {
        let mut s = "wrote ".to_string();
        s.append(decimal(len_of(content) as u64).as_str());
        s.append(" bytes to ");
        s.append(path);
        s
    }
}

/// How an entry of a folder is listed: a folder with a slash behind its name.
pub open spec fn listed_as(name: Seq<char>, dir: bool) -> Seq<char> {
    if dir {
        name + "/"@
    } else {
        name
    }
}

pub open spec fn lines_of(entries: Seq<(String, bool)>) -> Seq<Seq<char>> {
    Seq::new(entries.len(), |i: int| listed_as(entries[i].0@, entries[i].1))
}

/// Whether `text` holds these lines in order, one to a line.
pub open spec fn lists(text: Seq<char>, lines: Seq<Seq<char>>) -> bool {
    exists|s: Seq<Seq<char>>|
        in_order(s) && s.to_multiset() == lines.to_multiset() && text == #[trigger] join_of(
            s,
            "\n"@,
        )
}

impl ListDirTool {
    pub fn definition(&self) -> (r: ToolDef)
        ensures
            r@ == list_dir_def(),
    {
        ToolDef {
            name: "list_dir".to_string(),
            description: LIST_DESCRIPTION.to_string(),
            parameters: object().with_text("type", "object").with(
                "properties",
                object().with(
                    "path",
                    explained_value("string", "Directory path, defaults to workspace."),
                ),
            ),
            catalogue: false,
        }
    }

    /// The folder to list: the workspace where none is named.
    pub fn prepare(&self, args: &Json) -> (r: String)
        ensures
            r@ == (match args@.text_field("path"@) {
                Some(p) => p,
                None => "."@,
            }),
    {
        match args.get_str("path") {
            Some(p) => p,
            None => ".".to_string(),
        }
    }

    /// The listing of a folder with these entries, each with whether it is a folder.
    pub fn listing(&self, entries: &Vec<(String, bool)>) -> (r: String)
        ensures
            lists(r@, lines_of(entries@)),
    {
        let ghost goal = lines_of(entries@);
        let mut lines: Vec<String> = Vec::new();
        let mut i: usize = 0;
        while i < entries.len()
            invariant
                i <= entries.len(),
                goal == lines_of(entries@),
                lines@.len() == i,
                forall|k: int| 0 <= k < i ==> (#[trigger] lines@[k])@ == goal[k],
            decreases entries.len() - i,
        {
            let mut s = entries[i].0.clone();
            if entries[i].1 {
                s.append("/");
            }
            lines.push(s);
            i += 1;
        }
        assert(texts(lines@) =~= goal);
        let ordered = sorted(lines);
        let r = join(&ordered, "\n");
        assert(r@ == join_of(texts(ordered@), "\n"@));
        r
    }
}

/// How a skill is advertised.
pub open spec fn advertised(s: SkillV) -> Seq<char> {
    if s.description.len() == 0 {
        s.name
    } else {
        s.name + " — "@ + s.description
    }
}

pub open spec fn advertisements(skills: Seq<SkillV>) -> Seq<Seq<char>> {
    Seq::new(skills.len(), |i: int| advertised(skills[i]))
}

pub open spec fn skill_names(skills: Seq<SkillV>) -> Seq<Seq<char>> {
    Seq::new(skills.len(), |i: int| skills[i].name)
}

/// The parameters of the skills tool where there are skills: the model cannot ask for one that it
/// has never heard of.
pub open spec fn catalogue_parameters(skills: Seq<SkillV>) -> JsonV {
    params(
        obj().with(
            "name"@,
            obj().with_text("type"@, "string"@).with(
                "enum"@,
                text_list(skill_names(skills)),
            ).with_text(
                "description"@,
                "Skill to load. Available: "@ + join_of(advertisements(skills), "; "@),
            ),
        ),
        seq!["name"@],
    )
}

fn names_of_skills(skills: &Vec<SkillMeta>) -> (r: Vec<String>)
    ensures
        texts(r@) == skill_names(views(skills@)),
{
    let mut out: Vec<String> = Vec::new();
    let mut i: usize = 0;
    while i < skills.len()
        invariant
            i <= skills.len(),
            out@.len() == i,
            forall|k: int| 0 <= k < i ==> (#[trigger] out@[k])@ == skills@[k]@.name,
        decreases skills.len() - i,
    {
        out.push(skills[i].name.clone());
        i += 1;
    }
    assert(texts(out@) =~= skill_names(views(skills@)));
    out
}

fn skills_parameters(skills: &Vec<SkillMeta>) -> (r: Json)
    ensures
        r@ == catalogue_parameters(views(skills@)),
{
    let mut ads: Vec<String> = Vec::new();
    let mut i: usize = 0;
    while i < skills.len()
        invariant
            i <= skills.len(),
            ads@.len() == i,
            forall|k: int| 0 <= k < i ==> (#[trigger] ads@[k])@ == advertised(skills@[k]@),
        decreases skills.len() - i,
    {
        let mut s = skills[i].name.clone();
        if skills[i].description.as_str().unicode_len() > 0 {
            s.append(" — ");
            s.append(skills[i].description.as_str());
        }
        ads.push(s);
        i += 1;
    }
    assert(texts(ads@) =~= advertisements(views(skills@)));
    let mut d = "Skill to load. Available: ".to_string();
    d.append(join(&ads, "; ").as_str());
    params_value(
        object().with(
            "name",
            object().with_text("type", "string").with(
                "enum",
                text_list_value(&names_of_skills(skills)),
            ).with_text("description", d.as_str()),
        ),
        &just("name"),
    )
}

impl SkillsTool {
    pub fn definition(&self) -> (r: ToolDef)
        ensures
            r@ == skills_def(),
    {
        ToolDef {
            name: "skills".to_string(),
            description: SKILLS_DESCRIPTION.to_string(),
            parameters: params_value(
                object().with("name", explained_value("string", "Skill name")),
                &just("name"),
            ),
            catalogue: true,
        }
    }

    /// The skill to load.
    pub fn prepare(&self, args: &Json) -> (r: Result<String, String>)
        ensures
            text_argument(r, args@, "name"@),
    {
        argument(args, "name")
    }

    /// The error for a skill that is not there, given those that are.
    pub fn missing(&self, name: &str, skills: &Vec<SkillMeta>) -> (r: String)
        ensures
            r@ == ({
                let names = join_of(skill_names(views(skills@)), ", "@);
                if names.len() == 0 {
                    "skill '"@ + name@
                        + "' not found: no skills are installed. Add one at ~/.e/skills/<name>/SKILL.md"@
                } else {
                    "skill '"@ + name@ + "' not found. Available: "@ + names
                }
            }),
    {
        let names = join(&names_of_skills(skills), ", ");
        let mut s = "skill '".to_string();
        s.append(name);
        if names.as_str().unicode_len() == 0 {
            s.append(
                "' not found: no skills are installed. Add one at ~/.e/skills/<name>/SKILL.md",
            );
        } else {
            s.append("' not found. Available: ");
            s.append(names.as_str());
        }
        s
    }
}

// ---- what holds of every registry ----------------------------------------------------------------------

/// Whether the tools stand by name, each name once and one that providers accept.
pub open spec fn orderly(tools: Seq<ToolDefV>) -> bool {
    by_name::<ToolDef>(tools) && forall|i: int|
        0 <= i < tools.len() ==> proper_name((#[trigger] tools[i]).name)
}

/// Registering a tool keeps the names in order, each once and acceptable.
pub proof fn registering_keeps_names_proper(tools: Seq<ToolDefV>, t: ToolDefV)
    requires
        orderly(tools),
    ensures
        orderly(registered(tools, t)),
{
    let x = ToolDefV { name: sanitized(t.name), ..t };
    sanitized_names_are_proper(t.name);
    filing_keeps_order::<ToolDef>(tools, x);
    let r = registered(tools, t);
    assert forall|i: int| 0 <= i < r.len() implies proper_name((#[trigger] r[i]).name) by {
        let y = r[i];
        assert(r.contains(y));
        if ToolDef::name_in(y) != ToolDef::name_in(x) {
            assert(filed::<ToolDef>(tools, x).contains(y));
            assert(tools.contains(y));
            let k = choose|k: int| 0 <= k < tools.len() && tools[k] == y;
            assert(proper_name(tools[k].name));
        }
    }
}

proof fn without_prefix_facts(tools: Seq<ToolDefV>, prefix: Seq<char>)
    requires
        orderly(tools),
    ensures
        orderly(without_prefix(tools, prefix)),
        forall|i: int|
            0 <= i < without_prefix(tools, prefix).len() ==> {
                &&& !starts((#[trigger] without_prefix(tools, prefix)[i]).name, prefix)
                &&& tools.contains(without_prefix(tools, prefix)[i])
            },
        forall|i: int|
            0 <= i < tools.len() && !starts((#[trigger] tools[i]).name, prefix)
                ==> without_prefix(tools, prefix).contains(tools[i]),
    decreases tools.len(),
{
    if tools.len() > 0 {
        let d = tools.drop_last();
        assert forall|i: int| 0 <= i < d.len() implies proper_name((#[trigger] d[i]).name) by {
            assert(tools[i] == d[i]);
        }
        without_prefix_facts(d, prefix);
        let wd = without_prefix(d, prefix);
        let w = without_prefix(tools, prefix);
        assert forall|i: int| 0 <= i < w.len() implies !starts((#[trigger] w[i]).name, prefix)
            && tools.contains(w[i]) && proper_name(w[i].name) by {
            if i < wd.len() {
                assert(wd[i] == w[i]);
                let k = choose|k: int| 0 <= k < d.len() && d[k] == wd[i];
                assert(tools[k] == w[i]);
            } else {
                assert(tools[tools.len() - 1] == w[i]);
            }
        }
        assert forall|i: int, j: int| 0 <= i < j < w.len() implies precedes(
            ToolDef::name_in(#[trigger] w[i]),
            ToolDef::name_in(#[trigger] w[j]),
        ) by {
            if j < wd.len() {
                assert(wd[i] == w[i] && wd[j] == w[j]);
            } else {
                let k = choose|k: int| 0 <= k < d.len() && d[k] == wd[i];
                assert(tools[k] == w[i]);
                assert(tools[tools.len() - 1] == w[j]);
            }
        }
        assert forall|i: int| 0 <= i < tools.len() && !starts((#[trigger] tools[i]).name, prefix) implies w.contains(
        tools[i]) by {
            if i < d.len() {
                assert(d[i] == tools[i]);
                let k = choose|k: int| 0 <= k < wd.len() && wd[k] == d[i];
                assert(w[k] == tools[i]);
            } else {
                assert(w[w.len() - 1] == tools[i]);
            }
        }
    }
}

/// Retiring a prefix drops the tools with it and no others, and keeps the order.
pub proof fn retiring_drops_that_prefix_only(tools: Seq<ToolDefV>, prefix: Seq<char>)
    requires
        orderly(tools),
    ensures
        orderly(without_prefix(tools, prefix)),
        forall|i: int|
            0 <= i < without_prefix(tools, prefix).len() ==> !starts(
                (#[trigger] without_prefix(tools, prefix)[i]).name,
                prefix,
            ),
        forall|i: int|
            0 <= i < tools.len() && !starts((#[trigger] tools[i]).name, prefix)
                ==> without_prefix(tools, prefix).contains(tools[i]),
{
    without_prefix_facts(tools, prefix);
}

/// The tools that are built in stand by name, each name once and acceptable.
pub proof fn built_ins_are_orderly()
    ensures
        orderly(built_ins()),
{
    let t0 = Seq::<ToolDefV>::empty();
    assert(orderly(t0));
    let t1 = registered(t0, powershell_def());
    let t2 = registered(t1, process_poll_def());
    let t3 = registered(t2, process_kill_def());
    let t4 = registered(t3, read_file_def());
    let t5 = registered(t4, write_file_def());
    let t6 = registered(t5, list_dir_def());
    registering_keeps_names_proper(t0, powershell_def());
    registering_keeps_names_proper(t1, process_poll_def());
    registering_keeps_names_proper(t2, process_kill_def());
    registering_keeps_names_proper(t3, read_file_def());
    registering_keeps_names_proper(t4, write_file_def());
    registering_keeps_names_proper(t5, list_dir_def());
    registering_keeps_names_proper(t6, skills_def());
}

/// The tools that are kept of those that plugins ask for shadow nothing: each has a name that
/// providers accept, that no other tool has, that is not `shell`, and that no other plugin tool
/// has.
pub proof fn plugin_tools_shadow_nothing(tools: Seq<ToolDefV>, defs: Seq<PluginToolV>)
    ensures
        ({
            let kept = taken_in(tools, defs).kept;
            &&& forall|i: int|
                0 <= i < kept.len() ==> {
                    &&& proper_name((#[trigger] kept[i]).name)
                    &&& named::<ToolDef>(tools, kept[i].name) is None
                    &&& kept[i].name != "shell"@
                }
            &&& forall|i: int, j: int| 0 <= i < j < kept.len() ==> kept[i].name != kept[j].name
        }),
    decreases defs.len(),
{
    if defs.len() > 0 {
        let p = taken_in(tools, defs.drop_last()).kept;
        let d = defs.last();
        let name = sanitized(d.name);
        plugin_tools_shadow_nothing(tools, defs.drop_last());
        sanitized_names_are_proper(d.name);
        let kept = taken_in(tools, defs).kept;
        if !reserved(tools, name) && !has_plugin(p, name) {
            assert forall|i: int, j: int| 0 <= i < j < kept.len() implies kept[i].name
                != kept[j].name by {
                assert(kept[i] == p[i]);
                if j < p.len() {
                    assert(kept[j] == p[j]);
                }
            }
        }
    }
}

/// Once the tools of plugins have been taken in, no name is told to the model twice.
pub proof fn no_tool_is_advertised_twice(tools: Seq<ToolDefV>, defs: Seq<PluginToolV>)
    requires
        orderly(tools),
    ensures
        advertises_once(RegistryV { tools, plugin_tools: taken_in(tools, defs).kept }),
{
    let kept = taken_in(tools, defs).kept;
    let r = RegistryV { tools, plugin_tools: kept };
    let names = advertised_names(r);
    plugin_tools_shadow_nothing(tools, defs);
    assert forall|i: int, j: int| 0 <= i < j < names.len() implies names[i] != names[j] by {
        if j < tools.len() {
            tools_differ(tools, i, j);
        } else if i < tools.len() {
            named_is_first::<ToolDef>(tools, kept[j - tools.len()].name);
            assert(ToolDef::name_in(tools[i]) == tools[i].name);
        } else {
            assert(kept[i - tools.len()].name != kept[j - tools.len()].name);
        }
    }
}

proof fn tools_differ(tools: Seq<ToolDefV>, i: int, j: int)
    requires
        orderly(tools),
        0 <= i < j < tools.len(),
    ensures
        tools[i].name != tools[j].name,
{
    assert(precedes(ToolDef::name_in(tools[i]), ToolDef::name_in(tools[j])));
    crate::text::order_is_total(tools[i].name, tools[j].name);
}

proof fn nothing_beside_the_tools(tools: Seq<ToolDefV>)
    requires
        orderly(tools),
    ensures
        advertises_once(RegistryV { tools, plugin_tools: Seq::empty() }),
{
    let names = advertised_names(RegistryV { tools, plugin_tools: Seq::empty() });
    assert forall|i: int, j: int| 0 <= i < j < names.len() implies names[i] != names[j] by {
        tools_differ(tools, i, j);
    }
}

proof fn retiring_keeps_names_apart(r: RegistryV, prefix: Seq<char>)
    requires
        orderly(r.tools),
        advertises_once(r),
    ensures
        advertises_once(RegistryV { tools: without_prefix(r.tools, prefix), ..r }),
{
    let w = without_prefix(r.tools, prefix);
    let s = RegistryV { tools: w, ..r };
    let names = advertised_names(s);
    let all = advertised_names(r);
    let n = r.tools.len() as int;
    without_prefix_facts(r.tools, prefix);
    assert forall|i: int, j: int| 0 <= i < j < names.len() implies names[i] != names[j] by {
        if j < w.len() {
            tools_differ(w, i, j);
        } else if i < w.len() {
            assert(r.tools.contains(w[i]));
            let k = choose|k: int| 0 <= k < n && r.tools[k] == w[i];
            assert(all[k] == names[i]);
            assert(all[n + (j - w.len())] == names[j]);
        } else {
            assert(all[n + (i - w.len())] == names[i]);
            assert(all[n + (j - w.len())] == names[j]);
        }
    }
}

proof fn entry_names_its_tool(name: Seq<char>, description: Seq<char>, params: JsonV)
    ensures
        schema_name(schema_entry(name, description, params)) == name,
{
    reveal_strlit("type");
    reveal_strlit("function");
    reveal_strlit("name");
    let e = schema_entry(name, description, params);
    let f = e->Object_0;
    assert(f.len() == 2);
    assert(f[0].0 == "type"@ && f[1].0 == "function"@);
    assert("type"@.len() != "function"@.len());
    assert(f.skip(1)[0] == f[1]);
    assert(e.field("function"@) == Some(f[1].1)) by {
        reveal_with_fuel(lookup, 3);
    }
    let g = f[1].1->Object_0;
    assert(g[0] == ("name"@, JsonV::Text(name)));
    assert(f[1].1.field("name"@) == Some(JsonV::Text(name)));
}

/// What a request says of the tools names each of them: those that are not plugins' in the order of
/// their names, then the plugins' that were kept, in the order in which they were given. The order
/// is the same for every request, whatever the skills; and where the registry is in order and its
/// plugin tools were taken in last, no name is there twice.
pub proof fn the_schema_names_the_tools(r: RegistryV, skills: Seq<SkillV>)
    ensures
        schema_of(r, skills).len() == advertised_names(r).len(),
        forall|i: int|
            0 <= i < schema_of(r, skills).len() ==> schema_name(#[trigger] schema_of(r, skills)[i])
                == advertised_names(r)[i],
        orderly(r.tools) ==> forall|i: int, j: int|
            0 <= i < j < r.tools.len() ==> precedes(
                #[trigger] advertised_names(r)[i],
                #[trigger] advertised_names(r)[j],
            ),
        advertises_once(r) ==> forall|i: int, j: int|
            0 <= i < j < schema_of(r, skills).len() ==> schema_name(
                #[trigger] schema_of(r, skills)[i],
            ) != schema_name(#[trigger] schema_of(r, skills)[j]),
{
    let s = schema_of(r, skills);
    let names = advertised_names(r);
    let n = r.tools.len() as int;
    assert forall|i: int| 0 <= i < s.len() implies schema_name(#[trigger] s[i]) == names[i] by {
        if i < n {
            let t = r.tools[i];
            entry_names_its_tool(t.name, t.description, parameters_for(t, skills));
        } else {
            let t = r.plugin_tools[i - n];
            entry_names_its_tool(t.name, t.description, t.parameters);
        }
    }
    if orderly(r.tools) {
        assert forall|i: int, j: int| 0 <= i < j < n implies precedes(
            #[trigger] names[i],
            #[trigger] names[j],
        ) by {
            assert(precedes(ToolDef::name_in(r.tools[i]), ToolDef::name_in(r.tools[j])));
        }
    }
}

// ---- what the tools are for ----------------------------------------------------------------------------

/// The report on a command holds all that it printed: what it wrote, what it wrote as errors under
/// their heading and behind what it wrote, how much of either is missing, and at the end its exit
/// code. That there was no output is said only where both are blank.
pub proof fn a_command_reports_all_it_printed(out: TakenV, err: TakenV, code: int)
    ensures
        ({
            let t = sync_text(out, err, code);
            let exit = "\n[exit code "@ + signed_of(code) + "]"@;
            let errors = "[stderr]\n"@ + trim_end_of(err.text);
            &&& !blank(out.text) ==> within(out.text, t)
            &&& !blank(err.text) ==> within(errors, t)
            &&& !blank(out.text) && !blank(err.text) ==> within(out.text + "\n"@ + errors, t)
            &&& t.len() >= exit.len() && t.skip(t.len() - exit.len()) == exit
            &&& t == (if out.skipped > 0 {
                "[… truncated "@ + decimal_of(out.skipped as nat) + " earlier bytes of stdout]\n"@
            } else {
                Seq::empty()
            }) + (if blank(out.text) && blank(err.text) {
                "(no output)"@
            } else if blank(err.text) {
                out.text
            } else if blank(out.text) {
                "\n"@ + errors
            } else {
                out.text + "\n"@ + errors
            }) + (if err.skipped > 0 {
                "\n"@ + ("[… "@ + decimal_of(err.skipped as nat)
                    + " earlier bytes of stderr were truncated]"@)
            } else {
                Seq::empty()
            }) + exit
            &&& out.skipped > 0 ==> starts(
                t,
                "[… truncated "@ + decimal_of(out.skipped as nat) + " earlier bytes of stdout]\n"@,
            )
            &&& err.skipped > 0 ==> within(
                "[… "@ + decimal_of(err.skipped as nat)
                    + " earlier bytes of stderr were truncated]"@ + exit,
                t,
            )
        }),
{
    let t = sync_text(out, err, code);
    let exit = exit_line(code);
    let errors = "[stderr]\n"@ + trim_end_of(err.text);
    let c = printed(out.text, err.text);
    let head = lost_out(out.skipped);
    let tail = lost_err(err.skipped);
    report_in_parts(out, err, code);
    what_is_printed_is_all_there(out.text, err.text);
    between(head, c, tail + exit, t);
    if !blank(out.text) {
        within_whole(out.text, c, t);
    }
    if !blank(err.text) {
        within_whole(errors, c, t);
        if !blank(out.text) {
            within_whole(out.text + "\n"@ + errors, c, t);
        }
    }
    assert(t.skip(t.len() - exit.len()) =~= exit);
    if out.skipped > 0 {
        assert(t.take(head.len() as int) =~= head);
    }
    if err.skipped > 0 {
        let note = "[… "@ + decimal_of(err.skipped as nat)
            + " earlier bytes of stderr were truncated]"@;
        assert(tail =~= "\n"@ + note);
        between(head + c + "\n"@, note + exit, Seq::empty(), t);
    }
}

spec fn exit_line(code: int) -> Seq<char> {
    "\n[exit code "@ + signed_of(code) + "]"@
}

spec fn lost_out(n: int) -> Seq<char> {
    if n > 0 {
        "[… truncated "@ + decimal_of(n as nat) + " earlier bytes of stdout]\n"@
    } else {
        Seq::empty()
    }
}

spec fn lost_err(n: int) -> Seq<char> {
    if n > 0 {
        "\n"@ + ("[… "@ + decimal_of(n as nat) + " earlier bytes of stderr were truncated]"@)
    } else {
        Seq::empty()
    }
}

spec fn printed(out: Seq<char>, err: Seq<char>) -> Seq<char> {
    let errors = "[stderr]\n"@ + trim_end_of(err);
    if blank(out) && blank(err) {
        "(no output)"@
    } else if blank(err) {
        out
    } else if blank(out) {
        "\n"@ + errors
    } else {
        out + "\n"@ + errors
    }
}

proof fn report_in_parts(out: TakenV, err: TakenV, code: int)
    ensures
        sync_text(out, err, code) == lost_out(out.skipped) + printed(out.text, err.text)
            + lost_err(err.skipped) + exit_line(code),
{
    let o = out.text;
    heading_lines();
    let a = if blank(o) {
        Seq::empty()
    } else {
        o
    };
    let b = if blank(err.text) {
        a
    } else {
        a + "\n[stderr]\n"@ + trim_end_of(err.text)
    };
    if !blank(err.text) {
        assert(b[a.len() as int + 1] == '[');
        assert(!blank(b));
        assert(b =~= printed(o, err.text));
    } else if blank(o) {
        assert(b.len() == 0);
        assert(blank(b));
    }
    let c = if blank(b) {
        "(no output)"@
    } else {
        b
    };
    assert(c == printed(o, err.text));
    let d = if out.skipped > 0 {
        "[… truncated "@ + decimal_of(out.skipped as nat) + " earlier bytes of stdout]\n"@ + c
    } else {
        c
    };
    assert(d =~= lost_out(out.skipped) + c);
    let e = if err.skipped > 0 {
        d + "\n[… "@ + decimal_of(err.skipped as nat) + " earlier bytes of stderr were truncated]"@
    } else {
        d
    };
    assert(e =~= d + lost_err(err.skipped));
    let t = e + "\n[exit code "@ + signed_of(code) + "]"@;
    assert(t =~= e + exit_line(code));
    assert(sync_text(out, err, code) == t);
}

proof fn what_is_printed_is_all_there(out: Seq<char>, err: Seq<char>)
    ensures
        ({
            let c = printed(out, err);
            let errors = "[stderr]\n"@ + trim_end_of(err);
            &&& !blank(out) ==> within(out, c)
            &&& !blank(err) ==> within(errors, c)
            &&& !blank(out) && !blank(err) ==> within(out + "\n"@ + errors, c)
        }),
{
    let c = printed(out, err);
    let errors = "[stderr]\n"@ + trim_end_of(err);
    if !blank(out) {
        between(Seq::empty(), out, c.skip(out.len() as int), c);
    }
    if !blank(err) {
        between(c.take(c.len() - errors.len()), errors, Seq::empty(), c);
        if !blank(out) {
            between(Seq::empty(), out + "\n"@ + errors, Seq::empty(), c);
        }
    }
}

/// The headings that stand on a line of their own.
proof fn heading_lines()
    ensures
        "\n[stderr]\n"@ == "\n"@ + "[stderr]\n"@,
        "\n[stderr]\n"@.len() > 1,
        "\n[stderr]\n"@[1] == '[',
        "\n[… "@ == "\n"@ + "[… "@,
{
    reveal_strlit("\n[stderr]\n");
    reveal_strlit("[stderr]\n");
    reveal_strlit("\n");
    reveal_strlit("\n[… ");
    reveal_strlit("[… ");
    assert("\n[stderr]\n"@ =~= "\n"@ + "[stderr]\n"@);
    assert("\n[… "@ =~= "\n"@ + "[… "@);
}

/// A command that ran out of time reports what it had printed by then, both what it wrote and what
/// it wrote as errors; that it printed nothing is said only where both are blank.
pub proof fn a_killed_command_reports_all_it_printed(out: Seq<char>, err: Seq<char>)
    ensures
        ({
            let t = timeout_text(out, err);
            let head =
                "command timed out after 120s and was killed (process tree terminated). Output before the kill:"@;
            let errors = "[stderr]\n"@ + trim_end_of(err);
            &&& !blank(out) ==> within(out, t)
            &&& !blank(err) ==> within(errors, t)
            &&& t == head + "\n"@ + if blank(out) && blank(err) {
                "(it printed nothing)"@
            } else if blank(err) {
                out
            } else if blank(out) {
                errors
            } else {
                out + "\n"@ + errors
            }
        }),
{
    let t = timeout_text(out, err);
    let head =
        "command timed out after 120s and was killed (process tree terminated). Output before the kill:"@;
    let errors = "[stderr]\n"@ + trim_end_of(err);
    heading_lines();
    reveal_strlit("\n(it printed nothing)");
    reveal_strlit("(it printed nothing)");
    reveal_strlit("\n");
    assert("\n(it printed nothing)"@ =~= "\n"@ + "(it printed nothing)"@);
    let body = if blank(out) && blank(err) {
        "(it printed nothing)"@
    } else if blank(err) {
        out
    } else if blank(out) {
        errors
    } else {
        out + "\n"@ + errors
    };
    assert(t =~= head + "\n"@ + body);
    if !blank(out) {
        between(head + "\n"@, out, body.skip(out.len() as int), t);
    }
    if !blank(err) {
        between((head + "\n"@) + body.take(body.len() - errors.len()), errors, Seq::empty(), t);
    }
}

/// A file is handed back whole where it is not too large; a larger one is handed back up to the
/// limit, and how much is missing is said.
pub proof fn a_file_is_handed_back(data: Seq<u8>)
    ensures
        data.len() <= 200_000 ==> file_text(data) == lossy_of(data),
        data.len() > 200_000 ==> {
            &&& starts(file_text(data), cut(lossy_of(data), 200_000))
            &&& ends(
                file_text(data),
                "\n… (truncated "@ + decimal_of((data.len() - 200_000) as nat) + " bytes)"@,
            )
        },
{
    if data.len() > 200_000 {
        let t = file_text(data);
        let a = cut(lossy_of(data), 200_000);
        let b = "\n… (truncated "@ + decimal_of((data.len() - 200_000) as nat) + " bytes)"@;
        assert(t =~= a + b);
        assert(t.take(a.len() as int) =~= a);
        assert(t.skip(t.len() - b.len()) =~= b);
    }
}

/// Every entry of a folder is in its listing, a folder with a slash behind its name.
pub proof fn a_listing_holds_every_entry(text: Seq<char>, entries: Seq<(String, bool)>, i: int)
    requires
        lists(text, lines_of(entries)),
        0 <= i < entries.len(),
    ensures
        entries[i].1 ==> within(entries[i].0@ + "/"@, text),
        !entries[i].1 ==> within(entries[i].0@, text),
{
    let lines = lines_of(entries);
    let s = choose|s: Seq<Seq<char>>|
        in_order(s) && s.to_multiset() == lines.to_multiset() && text == #[trigger] join_of(
            s,
            "\n"@,
        );
    let x = lines[i];
    lines.to_multiset_ensures();
    s.to_multiset_ensures();
    assert(lines.contains(x));
    assert(lines.to_multiset().count(x) > 0);
    assert(s.to_multiset().count(x) > 0);
    assert(s.contains(x));
    let k = choose|k: int| 0 <= k < s.len() && s[k] == x;
    joined_within(s, "\n"@, k);
}

/// What the model is told of a tool: that it is a function, its name, what it is for, and the
/// parameters that it takes and needs.
pub proof fn an_entry_tells_all_of_a_tool(name: Seq<char>, description: Seq<char>, params: JsonV)
    ensures
        ({
            let e = schema_entry(name, description, params);
            &&& e.field("type"@) == Some(JsonV::Text("function"@))
            &&& e.field("function"@) matches Some(f) && {
                &&& f.field("name"@) == Some(JsonV::Text(name))
                &&& f.field("description"@) == Some(JsonV::Text(description))
                &&& f.field("parameters"@) matches Some(p) && {
                    &&& p.field("type"@) == Some(JsonV::Text("object"@))
                    &&& p.field("properties"@) == params.field("properties"@)
                    &&& p.field("required"@) == params.field("required"@)
                }
            }
        }),
{
    broadcast use a_field_reads_back, no_field_to_read;

    reveal_strlit("type");
    reveal_strlit("function");
    reveal_strlit("name");
    reveal_strlit("description");
    reveal_strlit("parameters");
    reveal_strlit("properties");
    reveal_strlit("required");
    assert("type"@.len() == 4);
    assert("function"@.len() == 8);
    assert("name"@.len() == 4);
    assert("description"@.len() == 11);
    assert("parameters"@.len() == 10);
    assert("properties"@.len() == 10);
    assert("required"@.len() == 8);
    assert("type"@[0] == 't' && "name"@[0] == 'n');
    assert("function"@[0] == 'f' && "required"@[0] == 'r');
    assert("parameters"@[1] == 'a' && "properties"@[1] == 'r');
}

/// What a request says of the tools is said of each: of those that are not plugins' first, then of
/// the plugins'. Where a project has skills, the tool that loads them is told which.
pub proof fn the_schema_tells_all_of_the_tools(r: RegistryV, skills: Seq<SkillV>, i: int)
    ensures
        0 <= i < r.tools.len() ==> schema_of(r, skills)[i] == schema_entry(
            r.tools[i].name,
            r.tools[i].description,
            if r.tools[i].catalogue && skills.len() > 0 {
                catalogue_parameters(skills)
            } else {
                r.tools[i].parameters
            },
        ),
        0 <= i < r.plugin_tools.len() ==> schema_of(r, skills)[r.tools.len() + i] == schema_entry(
            r.plugin_tools[i].name,
            r.plugin_tools[i].description,
            r.plugin_tools[i].parameters,
        ),
        schema_of(r, skills).len() == r.tools.len() + r.plugin_tools.len(),
{
}

/// The model hears of every skill: it may choose each by its name, and reads its name and what it is
/// for.
pub proof fn the_model_hears_of_every_skill(skills: Seq<SkillV>, k: int)
    requires
        0 <= k < skills.len(),
    ensures
        ({
            let p = catalogue_parameters(skills);
            &&& p.field("properties"@) matches Some(props) && props.field("name"@) matches Some(n) && {
                &&& n.field("enum"@) matches Some(JsonV::Array(all)) && all.len() == skills.len()
                    && all[k] == JsonV::Text(skills[k].name)
                &&& n.field("description"@) matches Some(JsonV::Text(d)) && within(skills[k].name, d)
                    && within(skills[k].description, d)
            }
            &&& p.field("required"@) == Some(JsonV::Array(seq![JsonV::Text("name"@)]))
        }),
{
    broadcast use a_field_reads_back, no_field_to_read;

    reveal_strlit("type");
    reveal_strlit("name");
    reveal_strlit("enum");
    reveal_strlit("description");
    reveal_strlit("properties");
    reveal_strlit("required");
    assert("type"@.len() == 4);
    assert("name"@.len() == 4);
    assert("enum"@.len() == 4);
    assert("description"@.len() == 11);
    assert("properties"@.len() == 10);
    assert("required"@.len() == 8);
    assert("type"@[0] == 't' && "name"@[0] == 'n');
    assert("type"@[0] == 't' && "enum"@[0] == 'e');
    assert("name"@[0] == 'n' && "enum"@[0] == 'e');
    let list = join_of(advertisements(skills), "; "@);
    let d = "Skill to load. Available: "@ + list;
    let x = advertised(skills[k]);
    assert(advertisements(skills)[k] == x);
    joined_within(advertisements(skills), "; "@, k);
    between("Skill to load. Available: "@, list, Seq::empty(), d);
    within_whole(x, list, d);
    if skills[k].description.len() == 0 {
        assert(skills[k].description =~= Seq::empty());
        between(Seq::empty(), Seq::empty(), d, d);
        between(Seq::empty(), skills[k].name, Seq::empty(), x);
    } else {
        between(Seq::empty(), skills[k].name, " — "@ + skills[k].description, x);
        between(skills[k].name + " — "@, skills[k].description, Seq::empty(), x);
        within_whole(skills[k].description, x, d);
    }
    within_whole(skills[k].name, x, d);
    assert(text_list(seq!["name"@])->Array_0 =~= seq![JsonV::Text("name"@)]);
}

/// A tool that is registered is found under the name that it is given, as it was registered, and
/// every other tool stays.
pub proof fn a_registered_tool_is_found(tools: Seq<ToolDefV>, t: ToolDefV, other: ToolDefV)
    requires
        orderly(tools),
    ensures
        registered(tools, t).contains(ToolDefV { name: sanitized(t.name), ..t }),
        other.name != sanitized(t.name) ==> (registered(tools, t).contains(other)
            <==> tools.contains(other)),
{
    filing_keeps_order::<ToolDef>(tools, ToolDefV { name: sanitized(t.name), ..t });
    assert(ToolDef::name_in(other) == other.name);
}

/// A name is kept but for the characters that providers refuse, each of which becomes an underscore,
/// and for what is beyond the length that they take.
pub proof fn a_name_keeps_its_characters(name: Seq<char>, i: int)
    requires
        0 <= i < name.len(),
        i < 64,
    ensures
        sanitized(name).len() == if name.len() <= 64 {
            name.len() as int
        } else {
            64
        },
        'a' <= name[i] <= 'z' || 'A' <= name[i] <= 'Z' || '0' <= name[i] <= '9' || name[i] == '_'
            || name[i] == '-' ==> sanitized(name)[i] == name[i],
        !('a' <= name[i] <= 'z' || 'A' <= name[i] <= 'Z' || '0' <= name[i] <= '9' || name[i] == '_'
            || name[i] == '-') ==> sanitized(name)[i] == '_',
{
}

/// A tool that a plugin asks for is kept, with all that it says of itself, unless its name is taken
/// by a tool that is built in or by one that was asked for earlier. A plugin whose tool is refused
/// or renamed is told so, by name.
pub proof fn a_plugin_tool_is_kept_or_refused_aloud(
    tools: Seq<ToolDefV>,
    defs: Seq<PluginToolV>,
    i: int,
)
    requires
        0 <= i < defs.len(),
    ensures
        ({
            let name = sanitized(defs[i].name);
            let taken = name == "shell"@ || (exists|k: int|
                0 <= k < tools.len() && (#[trigger] tools[k]).name == name) || exists|j: int|
                0 <= j < i && sanitized((#[trigger] defs[j]).name) == name;
            let r = taken_in(tools, defs);
            &&& !taken ==> r.kept.contains(PluginToolV { name, ..defs[i] })
            &&& taken || name != defs[i].name ==> exists|k: int|
                0 <= k < r.told.len() && within(name, #[trigger] r.told[k]) && within(
                    defs[i].plugin,
                    r.told[k],
                )
        }),
    decreases defs.len(),
{
    let d = defs.drop_last();
    let p = taken_in(tools, d);
    let r = taken_in(tools, defs);
    let x = defs[i];
    let name = sanitized(x.name);
    if i < defs.len() - 1 {
        a_plugin_tool_is_kept_or_refused_aloud(tools, d, i);
        assert(d[i] == x);
        assert(forall|j: int| 0 <= j < i ==> d[j] == defs[j]);
        let kept = PluginToolV { name, ..x };
        if p.kept.contains(kept) {
            let k = choose|k: int| 0 <= k < p.kept.len() && p.kept[k] == kept;
            assert(r.kept[k] == kept);
        }
        if exists|k: int|
            0 <= k < p.told.len() && within(name, #[trigger] p.told[k]) && within(
                x.plugin,
                p.told[k],
            ) {
            let k = choose|k: int|
                0 <= k < p.told.len() && within(name, #[trigger] p.told[k]) && within(
                    x.plugin,
                    p.told[k],
                );
            assert(r.told[k] == p.told[k]);
        }
        if exists|j: int| 0 <= j < i && sanitized((#[trigger] defs[j]).name) == name {
            let j = choose|j: int| 0 <= j < i && sanitized((#[trigger] defs[j]).name) == name;
            assert(sanitized(d[j].name) == name);
        }
    } else {
        assert(x == defs.last());
        named_is_first::<ToolDef>(tools, name);
        kept_names_were_asked_for(tools, d, name);
        if named::<ToolDef>(tools, name) is Some {
            assert(tools[named::<ToolDef>(tools, name)->Some_0].name == name);
        }
        assert forall|k: int| 0 <= k < tools.len() implies ToolDef::name_in(tools[k])
            == #[trigger] tools[k].name by {}
        assert(forall|j: int| 0 <= j < i ==> d[j] == defs[j]);
        if has_plugin(p.kept, name) && !reserved(tools, name) {
            let j = choose|j: int| 0 <= j < d.len() && sanitized((#[trigger] d[j]).name) == name;
            assert(sanitized(defs[j].name) == name);
        }
        let owner = owner_of(x);
        if x.plugin.len() == 0 {
            assert(x.plugin =~= Seq::empty());
            between(Seq::empty(), x.plugin, owner, owner);
        } else {
            between("'"@, x.plugin, "'"@, owner);
        }
        if reserved(tools, name) || has_plugin(p.kept, name) || x.name != name {
            let line = r.told.last();
            let mid = if x.name != name && !reserved(tools, name) && !has_plugin(p.kept, name) {
                owner + ": tool '"@ + x.name + "' was renamed to '"@
            } else {
                owner + ": tool '"@
            };
            let tail = line.skip((mid.len() + name.len()) as int);
            between(mid, name, tail, line);
            between(Seq::empty(), owner, line.skip(owner.len() as int), line);
            within_whole(x.plugin, owner, line);
            assert(r.told[r.told.len() - 1] == line);
        } else {
            assert(r.kept[r.kept.len() - 1] == (PluginToolV { name, ..x }));
        }
        if !reserved(tools, name) && !has_plugin(p.kept, name) {
            assert(!(exists|k: int| 0 <= k < tools.len() && (#[trigger] tools[k]).name == name));
            assert(r.kept[r.kept.len() - 1] == (PluginToolV { name, ..x }));
            asked_for_means_kept(tools, d, name);
            assert(forall|j: int| 0 <= j < d.len() ==> sanitized((#[trigger] d[j]).name) != name);
            assert(forall|j: int| 0 <= j < i ==> sanitized((#[trigger] defs[j]).name) != name) by {
                assert forall|j: int| 0 <= j < i implies sanitized((#[trigger] defs[j]).name)
                    != name by {
                    assert(d[j] == defs[j]);
                }
            }
        }
    }
}

proof fn kept_names_were_asked_for(tools: Seq<ToolDefV>, defs: Seq<PluginToolV>, name: Seq<char>)
    ensures
        has_plugin(taken_in(tools, defs).kept, name) ==> exists|j: int|
            0 <= j < defs.len() && sanitized((#[trigger] defs[j]).name) == name,
    decreases defs.len(),
{
    if defs.len() > 0 {
        let d = defs.drop_last();
        let kept = taken_in(tools, defs).kept;
        let p = taken_in(tools, d).kept;
        kept_names_were_asked_for(tools, d, name);
        if has_plugin(kept, name) {
            let k = choose|k: int| 0 <= k < kept.len() && (#[trigger] kept[k]).name == name;
            if k < p.len() {
                assert(p[k].name == name);
                let j = choose|j: int| 0 <= j < d.len() && sanitized((#[trigger] d[j]).name) == name;
                assert(sanitized(defs[j].name) == name);
            } else {
                assert(sanitized(defs[defs.len() - 1].name) == name);
            }
        }
    }
}

proof fn asked_for_means_kept(tools: Seq<ToolDefV>, defs: Seq<PluginToolV>, name: Seq<char>)
    requires
        !reserved(tools, name),
        !has_plugin(taken_in(tools, defs).kept, name),
    ensures
        forall|j: int| 0 <= j < defs.len() ==> sanitized((#[trigger] defs[j]).name) != name,
    decreases defs.len(),
{
    if defs.len() > 0 {
        let d = defs.drop_last();
        let kept = taken_in(tools, defs).kept;
        let p = taken_in(tools, d).kept;
        if has_plugin(p, name) {
            let k = choose|k: int| 0 <= k < p.len() && (#[trigger] p[k]).name == name;
            assert(kept[k].name == name);
        }
        asked_for_means_kept(tools, d, name);
        if sanitized(defs.last().name) == name {
            assert(kept[kept.len() - 1].name == name);
        }
        assert forall|j: int| 0 <= j < defs.len() implies sanitized((#[trigger] defs[j]).name)
            != name by {
            if j < d.len() {
                assert(d[j] == defs[j]);
            }
        }
    }
}

/// Tools work in the folder that was chosen, where it is one and is there; otherwise the reason is
/// told, and the folder that it is about.
pub proof fn tools_work_where_they_should(
    r: Result<String, String>,
    ws: Seq<char>,
    absolute: bool,
    exists: bool,
)
    requires
        working_dir(r, ws, absolute, exists),
    ensures
        ws.len() > 0 && absolute && exists ==> (r matches Ok(d) && d@ == ws),
        ws.len() == 0 || !absolute || !exists ==> r is Err,
        r matches Err(e) ==> ws.len() > 0 ==> within(ws, e@),
{
    if ws.len() > 0 {
        let a = "project folder is a relative path ("@;
        let t = relative_text(ws);
        between(a, ws, t.skip((a.len() + ws.len()) as int), t);
        let b = "workspace folder does not exist: "@;
        let u = missing_text(ws);
        between(b, ws, u.skip((b.len() + ws.len()) as int), u);
    }
}

/// An argument that is given is taken as it is; one that is missing is named.
pub proof fn an_argument_is_taken_as_it_is(r: Result<String, String>, args: JsonV, key: Seq<char>)
    requires
        text_argument(r, args, key),
    ensures
        args.field(key) matches Some(JsonV::Text(t)) ==> (r matches Ok(s) && s@ == t),
        !(args.field(key) matches Some(JsonV::Text(_))) ==> (r matches Err(e) && within(key, e@)),
{
    between("missing '"@, key, "'"@, "missing '"@ + key + "'"@);
}

/// What is asked for is what is done: the command that was given, without the space around it, in the
/// background where that was asked for; and the content that was given, in the file that was named.
pub proof fn what_is_asked_for_is_done(
    c: Result<(String, bool), String>,
    w: Result<(String, String), String>,
    args: JsonV,
)
    requires
        command_asked(c, args),
        write_asked(w, args),
    ensures
        args.field("command"@) matches Some(JsonV::Text(t)) ==> !blank(t) ==> (c matches Ok((
            cmd,
            background,
        )) && cmd@ == trim_of(t) && (background <==> args.field("background"@) == Some(
            JsonV::Bool(true),
        ))),
        args.field("command"@) matches Some(JsonV::Text(t)) ==> blank(t) ==> c is Err,
        !(args.field("command"@) matches Some(JsonV::Text(_))) ==> c is Err,
        args.field("path"@) matches Some(JsonV::Text(p)) ==> (args.field("content"@) matches Some(
            JsonV::Text(t),
        ) ==> (w matches Ok((path, content)) && path@ == p && content@ == t)),
        !(args.field("path"@) matches Some(JsonV::Text(_))) || !(args.field("content"@) matches Some(
            JsonV::Text(_),
        )) ==> w is Err,
{
}

/// A command fails exactly where its exit code says so, and says all that it printed either way.
pub proof fn a_command_fails_where_its_code_says_so(
    r: ToolResult,
    out: TakenV,
    err: TakenV,
    code: i32,
)
    requires
        command_ended(r, out, err, code),
    ensures
        r is Ok <==> code == 0,
        r matches Ok(t) ==> (!blank(out.text) ==> within(out.text, t@)) && (!blank(err.text) ==> within(
            "[stderr]\n"@ + trim_end_of(err.text),
            t@,
        )),
        r matches Err(t) ==> (!blank(out.text) ==> within(out.text, t@)) && (!blank(err.text)
            ==> within("[stderr]\n"@ + trim_end_of(err.text), t@)),
{
    a_command_reports_all_it_printed(out, err, code as int);
}

/// A call goes to the tool of its name, else to the plugin that has it; where there is neither, the
/// model is told so, and which tools there are.
pub proof fn a_call_goes_to_its_tool(r: Route, reg: RegistryV, name: Seq<char>, k: int)
    requires
        routed(r, reg, name),
    ensures
        (exists|i: int| 0 <= i < reg.tools.len() && (#[trigger] reg.tools[i]).name == name) ==> (
        r matches Route::Tool(i) && i < reg.tools.len() && reg.tools[i as int].name == name),
        (forall|i: int| 0 <= i < reg.tools.len() ==> (#[trigger] reg.tools[i]).name != name) && (
        exists|i: int|
            0 <= i < reg.plugin_tools.len() && (#[trigger] reg.plugin_tools[i]).name == name)
            ==> r is Plugin,
        (forall|i: int| 0 <= i < reg.tools.len() ==> (#[trigger] reg.tools[i]).name != name) && (
        forall|i: int|
            0 <= i < reg.plugin_tools.len() ==> (#[trigger] reg.plugin_tools[i]).name != name)
            ==> r is Unknown,
        r matches Route::Unknown(e) ==> within(name, e@) && (0 <= k < reg.tools.len() ==> within(
            reg.tools[k].name,
            e@,
        )),
{
    named_is_first::<ToolDef>(reg.tools, name);
    assert forall|i: int| 0 <= i < reg.tools.len() implies ToolDef::name_in(#[trigger] reg.tools[i])
        == reg.tools[i].name by {}
    match r {
        Route::Unknown(e) => {
            let a = "unknown tool: "@;
            let b = ". Available: "@;
            let list = join_of(names_of(reg.tools), ", "@);
            between(a, name, b + list, e@);
            if 0 <= k < reg.tools.len() {
                assert(names_of(reg.tools)[k] == reg.tools[k].name);
                joined_within(names_of(reg.tools), ", "@, k);
                between(a + name + b, list, Seq::empty(), e@);
                within_whole(reg.tools[k].name, list, e@);
            }
        },
        _ => {},
    }
}

/// A poll asks for the job that was named, and waits as long as was asked, up to the longest wait.
pub proof fn a_poll_waits_as_long_as_asked(r: Result<(String, u64), String>, args: JsonV)
    requires
        poll_asked(r, args),
    ensures
        !(args.field("id"@) matches Some(JsonV::Text(_))) ==> r is Err,
        args.field("id"@) matches Some(JsonV::Text(t)) ==> (r matches Ok((id, wait)) && id@ == t && (
        args.field("wait_ms"@) matches Some(JsonV::Unsigned(w)) ==> wait == if w <= 25_000 {
            w
        } else {
            25_000
        }) && (!(args.field("wait_ms"@) matches Some(JsonV::Unsigned(_))) ==> wait == 20_000)),
{
}

/// A schema says of each argument of which kind it is and what it is for, and which are required.
pub proof fn a_schema_says_what_it_takes(
    kind: Seq<char>,
    description: Seq<char>,
    properties: JsonV,
    required: Seq<Seq<char>>,
    k: int,
)
    ensures
        typed(kind).field("type"@) == Some(JsonV::Text(kind)),
        explained(kind, description).field("type"@) == Some(JsonV::Text(kind)),
        explained(kind, description).field("description"@) == Some(JsonV::Text(description)),
        params(properties, required).field("type"@) == Some(JsonV::Text("object"@)),
        params(properties, required).field("properties"@) == Some(properties),
        params(properties, required).field("required"@) matches Some(JsonV::Array(r)) && r.len()
            == required.len() && (0 <= k < r.len() ==> r[k] == JsonV::Text(required[k])),
{
    broadcast use a_field_reads_back, no_field_to_read;

    reveal_strlit("type");
    reveal_strlit("description");
    reveal_strlit("properties");
    reveal_strlit("required");
    assert("type"@.len() == 4);
    assert("description"@.len() == 11);
    assert("properties"@.len() == 10);
    assert("required"@.len() == 8);
}

} // verus!
