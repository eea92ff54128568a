//! Plugins: which folders are plugins, whether they can run, and the questions that the engine
//! asks of their host.
//!
//! A plugin is a folder with a `plugin.json` and a module, in a folder of the user or of the
//! project. The folder is the installation. The module itself runs in the front end.

use vstd::prelude::*;

use crate::catalog::{by_name, file, filed, filing_keeps_order, views, Named};
use crate::json::{a_field_reads_back, no_field_to_read, obj, object, render, written, Json, JsonV};
use crate::paths::{is_absolute, join_path, may_join, plainly_relative};
use crate::text::{
    between, blank, decimal, decimal_of, is_blank, join, join_of, joined_within,
    numbered_endings_tell_apart, one_of, opt_str, opt_text, same, starts, starts_with, texts, trim,
    trim_is_empty_iff_blank, trim_of, within, within_whole,
};

verus! {

/// How long a plugin tool may take, in seconds.
pub const TOOL_TIMEOUT: u64 = 180;

/// How long the guards may take, in seconds. They are asked before every call.
pub const VETO_TIMEOUT: u64 = 5;

/// Everything that a plugin may ask for. A manifest that names anything else is mistaken, and
/// has to be told so: a capability that is dropped in silence looks like one that was granted.
pub const CAPABILITIES: [&'static str; 9] = [
    "tools",
    "events",
    "commands",
    "ui",
    "network",
    "session-read",
    "views",
    "fs",
    "pty",
];

/// Everything that a plugin may ask for.
pub open spec fn capabilities() -> Seq<Seq<char>> {
    seq![
        "tools"@,
        "events"@,
        "commands"@,
        "ui"@,
        "network"@,
        "session-read"@,
        "views"@,
        "fs"@,
        "pty"@,
    ]
}

fn known_capabilities() -> (r: Vec<String>)
    ensures
        texts(r@) == capabilities(),
{
    let mut v: Vec<String> = Vec::new();
    v.push(CAPABILITIES[0].to_string());
    v.push(CAPABILITIES[1].to_string());
    v.push(CAPABILITIES[2].to_string());
    v.push(CAPABILITIES[3].to_string());
    v.push(CAPABILITIES[4].to_string());
    v.push(CAPABILITIES[5].to_string());
    v.push(CAPABILITIES[6].to_string());
    v.push(CAPABILITIES[7].to_string());
    v.push(CAPABILITIES[8].to_string());
    assert(texts(v@) =~= capabilities());
    v
}

/// A tool that a plugin has asked for.
#[derive(Debug)]
pub struct PluginToolDef {
    pub name: String,
    pub description: String,
    pub parameters: Json,
    /// The plugin that asked for it.
    pub plugin: String,
}

pub struct PluginToolV {
    pub name: Seq<char>,
    pub description: Seq<char>,
    pub parameters: JsonV,
    pub plugin: Seq<char>,
}

impl View for PluginToolDef {
    type V = PluginToolV;

    open spec fn view(&self) -> PluginToolV {
        PluginToolV {
            name: self.name@,
            description: self.description@,
            parameters: self.parameters@,
            plugin: self.plugin@,
        }
    }
}

impl Clone for PluginToolDef {
    fn clone(&self) -> (r: PluginToolDef)
        ensures
            r@ == self@,
    {
        PluginToolDef {
            name: self.name.clone(),
            description: self.description.clone(),
            parameters: self.parameters.copy(),
            plugin: self.plugin.clone(),
        }
    }
}

/// What a `plugin.json` says.
#[derive(Debug)]
pub struct PluginManifest {
    pub name: String,
    pub version: String,
    pub description: String,
    pub capabilities: Vec<String>,
    pub entry: String,
}

/// What became of reading a `plugin.json`.
#[derive(Debug)]
pub enum ManifestFile {
    /// It could not be read, for this reason.
    Unreadable(String),
    /// It is no manifest, for this reason.
    Invalid(String),
    Read(PluginManifest),
}

/// A plugin: its manifest, where it comes from, and whether it can run.
#[derive(Debug)]
pub struct PluginInfo {
    /// The name of the folder, which is what the plugin goes by everywhere.
    pub name: String,
    /// The name in the manifest, for people to read; that of the folder where it has none.
    pub display: String,
    pub version: String,
    pub description: String,
    pub capabilities: Vec<String>,
    pub entry: String,
    pub dir: String,
    /// "global" or "project".
    pub scope: String,
    pub enabled: bool,
    /// Why the plugin cannot load; empty where it can.
    pub error: String,
}

pub struct PluginV {
    pub name: Seq<char>,
    pub display: Seq<char>,
    pub version: Seq<char>,
    pub description: Seq<char>,
    pub capabilities: Seq<Seq<char>>,
    pub entry: Seq<char>,
    pub dir: Seq<char>,
    pub scope: Seq<char>,
    pub enabled: bool,
    pub error: Seq<char>,
}

impl View for PluginInfo {
    type V = PluginV;

    open spec fn view(&self) -> PluginV {
        PluginV {
            name: self.name@,
            display: self.display@,
            version: self.version@,
            description: self.description@,
            capabilities: texts(self.capabilities@),
            entry: self.entry@,
            dir: self.dir@,
            scope: self.scope@,
            enabled: self.enabled,
            error: self.error@,
        }
    }
}

impl Named for PluginInfo {
    open spec fn name_in(v: PluginV) -> Seq<char> {
        v.name
    }

    fn name_ref(&self) -> (r: &String) {
        &self.name
    }
}

// ---- reading a plugin ------------------------------------------------------------------------------

/// The texts without the whitespace around each.
pub open spec fn trimmed(v: Seq<Seq<char>>) -> Seq<Seq<char>> {
    Seq::new(v.len(), |i: int| trim_of(v[i]))
}

/// The capabilities that are not known.
pub open spec fn unknown(caps: Seq<Seq<char>>) -> Seq<Seq<char>>
    decreases caps.len(),
{
    if caps.len() == 0 {
        Seq::empty()
    } else if capabilities().contains(caps.last()) {
        unknown(caps.drop_last())
    } else {
        unknown(caps.drop_last()).push(caps.last())
    }
}

pub open spec fn or_else(s: Seq<char>, otherwise: Seq<char>) -> Seq<char> {
    if blank(s) {
        otherwise
    } else {
        trim_of(s)
    }
}

/// What is wrong with the capabilities of a manifest.
pub open spec fn unknown_text(u: Seq<Seq<char>>) -> Seq<char> {
    "unknown capabilit"@ + (if u.len() == 1 {
        "y"@
    } else {
        "ies"@
    }) + ": "@ + join_of(u, ", "@) + " (known: "@ + join_of(capabilities(), ", "@) + ")"@
}

/// A plugin as it is known before its manifest has been read.
pub open spec fn bare(folder: Seq<char>, dir: Seq<char>, scope: Seq<char>) -> PluginV {
    PluginV {
        name: folder,
        display: folder,
        version: Seq::empty(),
        description: Seq::empty(),
        capabilities: Seq::empty(),
        entry: "index.js"@,
        dir,
        scope,
        enabled: true,
        error: Seq::empty(),
    }
}

/// What is known of a plugin, given whether the module that its manifest names is a file.
pub open spec fn known_of(
    folder: Seq<char>,
    dir: Seq<char>,
    scope: Seq<char>,
    m: ManifestFile,
    entry_exists: bool,
) -> PluginV {
    let b = bare(folder, dir, scope);
    match m {
        ManifestFile::Unreadable(e) => PluginV { error: "cannot read plugin.json: "@ + e@, ..b },
        ManifestFile::Invalid(e) => PluginV {
            error: "plugin.json is not valid JSON: "@ + e@,
            ..b
        },
        ManifestFile::Read(mf) => {
            let caps = trimmed(texts(mf.capabilities@));
            let entry = or_else(mf.entry@, "index.js"@);
            PluginV {
                display: or_else(mf.name@, folder),
                version: mf.version@,
                description: mf.description@,
                capabilities: caps,
                entry,
                error: if unknown(caps).len() > 0 {
                    unknown_text(unknown(caps))
                } else if !entry_exists {
                    "entry file '"@ + entry + "' is missing"@
                } else {
                    Seq::empty()
                },
                ..b
            }
        },
    }
}

fn text_or(s: &str, otherwise: &str) -> (r: String)
    ensures
        r@ == or_else(s@, otherwise@),
{
    let t = trim(s);
    proof {
        trim_is_empty_iff_blank(s@);
    }
    if t.as_str().unicode_len() == 0 {
        otherwise.to_string()
    } else {
        t
    }
}

/// The module that a manifest names.
pub fn entry_of(m: &PluginManifest) -> (r: String)
    ensures
        r@ == or_else(m.entry@, "index.js"@),
{
    text_or(m.entry.as_str(), "index.js")
}

/// What is known of the plugin in a folder. One that cannot load is described too: it is
/// something to show, not to hide.
pub fn read_info(
    folder: &str,
    dir: &str,
    scope: &str,
    m: ManifestFile,
    entry_exists: bool,
) -> (r: PluginInfo)
    ensures
        r@ == known_of(folder@, dir@, scope@, m, entry_exists),
{
    let ghost want = known_of(folder@, dir@, scope@, m, entry_exists);
    let mut info = PluginInfo {
        name: folder.to_string(),
        display: folder.to_string(),
        version: String::new(),
        description: String::new(),
        capabilities: Vec::new(),
        entry: "index.js".to_string(),
        dir: dir.to_string(),
        scope: scope.to_string(),
        enabled: true,
        error: String::new(),
    };
    assert(texts(info.capabilities@) =~= Seq::empty());
    match m {
        ManifestFile::Unreadable(e) => {
            let mut s = "cannot read plugin.json: ".to_string();
            s.append(e.as_str());
            info.error = s;
            info
        },
        ManifestFile::Invalid(e) => {
            let mut s = "plugin.json is not valid JSON: ".to_string();
            s.append(e.as_str());
            info.error = s;
            info
        },
        ManifestFile::Read(mf) => {
            info.display = text_or(mf.name.as_str(), folder);
            info.entry = text_or(mf.entry.as_str(), "index.js");
            info.version = mf.version;
            info.description = mf.description;
            let known = known_capabilities();
            let ghost raw = texts(mf.capabilities@);
            let ghost all = trimmed(raw);
            let mut caps: Vec<String> = Vec::new();
            let mut strange: Vec<String> = Vec::new();
            let mut i: usize = 0;
            assert(texts(strange@) =~= unknown(all.take(0)));
            assert(texts(caps@) =~= all.take(0));
            while i < mf.capabilities.len()
                invariant
                    i <= mf.capabilities.len(),
                    texts(known@) == capabilities(),
                    raw == texts(mf.capabilities@),
                    all == trimmed(raw),
                    texts(caps@) == all.take(i as int),
                    texts(strange@) == unknown(all.take(i as int)),
                decreases mf.capabilities.len() - i,
            {
                let c = trim(mf.capabilities[i].as_str());
                assert(all.take(i + 1).drop_last() =~= all.take(i as int));
                assert(all[i as int] == c@);
                if !one_of(c.as_str(), &known) {
                    let ghost before = texts(strange@);
                    strange.push(c.clone());
                    assert(texts(strange@) =~= before.push(c@));
                }
                let ghost before = texts(caps@);
                caps.push(c);
                assert(texts(caps@) =~= before.push(c@));
                assert(before.push(c@) =~= all.take(i + 1));
                i += 1;
            }
            assert(all.take(all.len() as int) =~= all);
            info.capabilities = caps;
            assert(texts(strange@).len() == strange@.len());
            if strange.len() > 0 {
                let mut s = "unknown capabilit".to_string();
                if strange.len() == 1 {
                    s.append("y");
                } else {
                    s.append("ies");
                }
                s.append(": ");
                s.append(join(&strange, ", ").as_str());
                s.append(" (known: ");
                s.append(join(&known, ", ").as_str());
                s.append(")");
                info.error = s;
            } else if !entry_exists {
                let mut s = "entry file '".to_string();
                s.append(info.entry.as_str());
                s.append("' is missing");
                info.error = s;
            }
            info
        },
    }
}

/// A manifest that asks for something unknown is never loaded.
pub proof fn unknown_capabilities_are_never_granted(
    folder: Seq<char>,
    dir: Seq<char>,
    scope: Seq<char>,
    mf: PluginManifest,
    entry_exists: bool,
    i: int,
)
    requires
        0 <= i < mf.capabilities@.len(),
        !capabilities().contains(trim_of(mf.capabilities@[i]@)),
    ensures
        known_of(folder, dir, scope, ManifestFile::Read(mf), entry_exists).error.len() > 0,
{
    let caps = trimmed(texts(mf.capabilities@));
    unknown_holds(caps, i);
    reveal_strlit("unknown capabilit");
}

proof fn unknown_holds(caps: Seq<Seq<char>>, i: int)
    requires
        0 <= i < caps.len(),
        !capabilities().contains(caps[i]),
    ensures
        unknown(caps).len() > 0,
    decreases caps.len(),
{
    if i < caps.len() - 1 {
        unknown_holds(caps.drop_last(), i);
    }
}

// ---- finding plugins ---------------------------------------------------------------------------------

pub open spec fn dirs_view(v: Seq<(String, String)>) -> Seq<(Seq<char>, Seq<char>)> {
    Seq::new(v.len(), |i: int| (v[i].0@, v[i].1@))
}

/// The folders with a scope for each, given those of the user and of the project.
pub open spec fn dirs_of(user: Option<Seq<char>>, project: Option<Seq<char>>) -> Seq<
    (Seq<char>, Seq<char>),
> {
    let first = match user {
        Some(u) => seq![("global"@, u)],
        None => Seq::empty(),
    };
    match project {
        Some(p) => first.push(("project"@, p)),
        None => first,
    }
}

/// The folders with a scope for each, given those of the user and of the project.
pub fn with_dirs(user: Option<String>, project: Option<String>) -> (r: Vec<(String, String)>)
    ensures
        dirs_view(r@) == dirs_of(opt_text(user), opt_text(project)),
{
    let ghost a = opt_text(user);
    let ghost b = opt_text(project);
    let mut dirs: Vec<(String, String)> = Vec::new();
    match user {
        Some(u) => {
            dirs.push(("global".to_string(), u));
        },
        None => {},
    }
    match project {
        Some(p) => {
            dirs.push(("project".to_string(), p));
        },
        None => {},
    }
    assert(dirs_view(dirs@) =~= dirs_of(a, b));
    dirs
}

/// Whether `r` may be the path of `below` in the folder of a project. A workspace that is empty or
/// relative has none: where the program was started from must not decide which code runs.
pub open spec fn may_be_below(
    workspace: Option<Seq<char>>,
    below: Seq<char>,
    r: Option<Seq<char>>,
) -> bool {
    match (workspace, r) {
        (Some(w), Some(p)) => {
            &&& !blank(w)
            &&& !plainly_relative(trim_of(w))
            &&& may_join(trim_of(w), below, p)
        },
        (None, Some(_)) => false,
        (_, None) => true,
    }
}

/// Whether these may be the places of `below`: the one of the user in the home, where there is a
/// home, and behind it the one of the project.
pub open spec fn may_be_dirs(
    dirs: Seq<(Seq<char>, Seq<char>)>,
    workspace: Option<Seq<char>>,
    home: Option<Seq<char>>,
    below: Seq<char>,
) -> bool {
    exists|user: Option<Seq<char>>, project: Option<Seq<char>>| #[trigger]
        dirs_of(user, project) == dirs && (user is Some <==> home is Some) && (user matches Some(u)
            ==> may_join(home->Some_0, below, u)) && may_be_below(workspace, below, project)
}

/// A path below the folder of a project, given whether the path of the folder is absolute and what
/// joining the two gives: none where the workspace is empty or relative.
pub open spec fn below_of(
    workspace: Option<Seq<char>>,
    absolute: bool,
    joined: Seq<char>,
) -> Option<Seq<char>> {
    match workspace {
        Some(w) => if !blank(w) && absolute {
            Some(joined)
        } else {
            None
        },
        None => None,
    }
}

/// A path below the folder of a project, once it is known whether the path of the folder is
/// absolute and what joining the two gives.
pub fn below_workspace_with(workspace: Option<&str>, absolute: bool, joined: &str) -> (r: Option<
    String,
>)
    ensures
        opt_text(r) == below_of(opt_str(workspace), absolute, joined@),
{
    match workspace {
        Some(w) => {
            if !is_blank(w) && absolute {
                Some(joined.to_string())
            } else {
                None
            }
        },
        None => None,
    }
}

/// A path below the folder of a project: none where the workspace is empty or relative. Where
/// the program was started from must not decide which code runs. What is absolute, and what
/// joining gives, is up to the machine.
pub fn below_workspace(workspace: Option<&str>, below: &str) -> (r: Option<String>)
    ensures
        may_be_below(opt_str(workspace), below@, opt_text(r)),
{
    let ws: String = match workspace {
        Some(w) => trim(w),
        None => String::new(),
    };
    let absolute: bool = is_absolute(ws.as_str());
    let joined = join_path(ws.as_str(), below);
    below_workspace_with(workspace, absolute, joined.as_str())
}

/// The folders that plugins are looked for in, the user's first.
pub fn plugin_dirs(workspace: Option<&str>, home: Option<&str>) -> (r: Vec<(String, String)>)
    ensures
        may_be_dirs(dirs_view(r@), opt_str(workspace), opt_str(home), ".e/plugins"@),
{
    let project = below_workspace(workspace, ".e/plugins");
    let user: Option<String> = match home {
        Some(h) => Some(join_path(h, ".e/plugins")),
        None => None,
    };
    let ghost a = opt_text(user);
    let ghost b = opt_text(project);
    let r = with_dirs(user, project);
    assert(dirs_of(a, b) == dirs_view(r@));
    r
}

/// The plugins among what was found, in the order of their names. A hidden folder is none, and
/// what is found later shadows what has the same name.
pub open spec fn discovered(found: Seq<PluginV>) -> Seq<PluginV>
    decreases found.len(),
{
    if found.len() == 0 {
        Seq::empty()
    } else if starts(found.last().name, "."@) {
        discovered(found.drop_last())
    } else {
        filed::<PluginInfo>(discovered(found.drop_last()), found.last())
    }
}

/// The plugins among what was found, the user's first and the project's after them, so that a
/// plugin of the project shadows one of the user.
pub fn discover(found: Vec<PluginInfo>) -> (r: Vec<PluginInfo>)
    ensures
        views(r@) == discovered(views(found@)),
{
    let ghost f = views(found@);
    let mut rest = found;
    let mut out: Vec<PluginInfo> = Vec::new();
    let ghost mut n: int = 0;
    assert(views(out@) =~= discovered(f.take(0)));
    while rest.len() > 0
        invariant
            0 <= n <= f.len(),
            rest@.len() == f.len() - n,
            forall|k: int| 0 <= k < rest@.len() ==> (#[trigger] rest@[k])@ == f[n + k],
            views(out@) == discovered(f.take(n)),
        decreases rest.len(),
    {
        let ghost before = rest@;
        let info = rest.remove(0);
        assert(f.take(n + 1).drop_last() =~= f.take(n));
        assert(info@ == f[n]);
        if !starts_with(info.name.as_str(), ".") {
            file(&mut out, info);
        }
        proof {
            n = n + 1;
        }
        assert forall|k: int| 0 <= k < rest@.len() implies (#[trigger] rest@[k])@ == f[n + k] by {
            assert(rest@[k] == before[k + 1]);
        }
    }
    assert(f.take(n) =~= f);
    out
}

/// The plugins stand in the order of their names, each once.
pub proof fn discovered_is_in_order(found: Seq<PluginV>)
    ensures
        by_name::<PluginInfo>(discovered(found)),
    decreases found.len(),
{
    if found.len() > 0 {
        discovered_is_in_order(found.drop_last());
        filing_keeps_order::<PluginInfo>(discovered(found.drop_last()), found.last());
    }
}

/// A plugin that is found later shadows the others of its name.
pub proof fn later_plugins_shadow_earlier_ones(found: Seq<PluginV>, more: PluginV)
    requires
        !starts(more.name, "."@),
    ensures
        discovered(found.push(more)).contains(more),
        forall|i: int|
            0 <= i < discovered(found.push(more)).len() && (#[trigger] discovered(
                found.push(more),
            )[i]).name == more.name ==> discovered(found.push(more))[i] == more,
{
    let all = found.push(more);
    assert(all.drop_last() =~= found);
    discovered_is_in_order(found);
    discovered_is_in_order(all);
    filing_keeps_order::<PluginInfo>(discovered(found), more);
    let r = discovered(all);
    let k = choose|k: int| 0 <= k < r.len() && r[k] == more;
    assert forall|i: int| 0 <= i < r.len() && (#[trigger] r[i]).name == more.name implies r[i]
        == more by {
        crate::text::order_is_total(r[i].name, r[k].name);
        if i < k {
            assert(crate::text::precedes(r[i].name, r[k].name));
        } else if k < i {
            assert(crate::text::precedes(r[k].name, r[i].name));
        }
    }
}

/// Whether a plugin can be loaded, and why not.
pub fn loadable(info: &PluginInfo) -> (r: Result<(), String>)
    ensures
        match r {
            Ok(_) => info@.error.len() == 0,
            Err(e) => info@.error.len() > 0 && e@ == "plugin '"@ + info@.name + "': "@
                + info@.error,
        },
{
    if info.error.as_str().unicode_len() == 0 {
        Ok(())
    } else {
        let mut s = "plugin '".to_string();
        s.append(info.name.as_str());
        s.append("': ");
        s.append(info.error.as_str());
        Err(s)
    }
}

/// The error for a plugin that is not there.
pub fn not_found(name: &str) -> (r: String)
    ensures
        r@ == "plugin '"@ + name@ + "' not found"@,
{
    let mut s = "plugin '".to_string();
    s.append(name);
    s.append("' not found");
    s
}

// ---- questions to the host -------------------------------------------------------------------------

/// The questions that wait for an answer from the host of the plugins.
#[derive(Debug)]
pub struct Desk {
    /// Whether there is a host.
    pub host: bool,
    /// Whether a plugin guards tool calls. While none does, nothing is asked.
    pub guarded: bool,
    /// How many questions were asked.
    pub asked: u64,
    pub tools: Vec<String>,
    pub vetoes: Vec<String>,
}

pub struct DeskV {
    pub host: bool,
    pub guarded: bool,
    pub asked: u64,
    pub tools: Seq<Seq<char>>,
    pub vetoes: Seq<Seq<char>>,
}

impl View for Desk {
    type V = DeskV;

    open spec fn view(&self) -> DeskV {
        DeskV {
            host: self.host,
            guarded: self.guarded,
            asked: self.asked,
            tools: texts(self.tools@),
            vetoes: texts(self.vetoes@),
        }
    }
}

/// The id of a question. The count keeps two questions of one millisecond apart.
pub open spec fn question_id(prefix: Seq<char>, ms: u64, n: u64) -> Seq<char> {
    prefix + decimal_of(ms as nat) + "_"@ + decimal_of(n as nat)
}

fn next_id(prefix: &str, ms: u64, n: u64) -> (r: String)
    ensures
        r@ == question_id(prefix@, ms, n),
{
    let mut s = prefix.to_string();
    s.append(decimal(ms).as_str());
    s.append("_");
    s.append(decimal(n).as_str());
    s
}

/// Whether no text occurs twice.
pub open spec fn no_twice(list: Seq<Seq<char>>) -> bool {
    forall|i: int, j: int| 0 <= i < j < list.len() ==> list[i] != list[j]
}

/// Whether `id` is that of one of the first `asked` questions.
pub open spec fn issued(prefix: Seq<char>, id: Seq<char>, asked: u64) -> bool {
    exists|ms: u64, n: u64| n < asked && id == #[trigger] question_id(prefix, ms, n)
}

/// Whether these can wait after `asked` questions: each was asked, and none waits twice.
pub open spec fn can_wait(prefix: Seq<char>, list: Seq<Seq<char>>, asked: u64) -> bool {
    &&& no_twice(list)
    &&& forall|i: int| 0 <= i < list.len() ==> issued(prefix, #[trigger] list[i], asked)
}

/// The next question can wait with those that wait.
pub proof fn one_more_waits(prefix: Seq<char>, list: Seq<Seq<char>>, asked: u64, ms: u64)
    requires
        can_wait(prefix, list, asked),
        asked < u64::MAX,
    ensures
        can_wait(prefix, list.push(question_id(prefix, ms, asked)), (asked + 1) as u64),
{
    let id = question_id(prefix, ms, asked);
    let l = list.push(id);
    assert forall|i: int| 0 <= i < l.len() implies issued(
        prefix,
        #[trigger] l[i],
        (asked + 1) as u64,
    ) by {
        if i < list.len() {
            assert(issued(prefix, list[i], asked));
        }
    }
    assert forall|i: int, j: int| 0 <= i < j < l.len() implies l[i] != l[j] by {
        if j == list.len() {
            assert(issued(prefix, list[i], asked));
            let (m, n) = choose|m: u64, n: u64|
                n < asked && list[i] == #[trigger] question_id(prefix, m, n);
            question_ids_differ(prefix, m, n, ms, asked);
        }
    }
}

/// Questions can go on waiting when there are more, of another kind.
pub proof fn they_still_wait(prefix: Seq<char>, list: Seq<Seq<char>>, asked: u64)
    requires
        can_wait(prefix, list, asked),
        asked < u64::MAX,
    ensures
        can_wait(prefix, list, (asked + 1) as u64),
{
    assert forall|i: int| 0 <= i < list.len() implies issued(
        prefix,
        #[trigger] list[i],
        (asked + 1) as u64,
    ) by {
        assert(issued(prefix, list[i], asked));
    }
}

/// The others can go on waiting when one waits no more.
pub proof fn the_others_wait(prefix: Seq<char>, list: Seq<Seq<char>>, asked: u64, x: Seq<char>)
    requires
        can_wait(prefix, list, asked),
    ensures
        can_wait(prefix, without(list, x), asked),
{
    let w = without(list, x);
    without_one(list, x);
    assert forall|i: int| 0 <= i < w.len() implies issued(prefix, #[trigger] w[i], asked) by {
        assert(w.contains(w[i]));
        let k = choose|k: int| 0 <= k < list.len() && list[k] == w[i];
        assert(issued(prefix, list[k], asked));
    }
}

/// The list without the first occurrence of `x`.
pub open spec fn without(list: Seq<Seq<char>>, x: Seq<char>) -> Seq<Seq<char>>
    decreases list.len(),
{
    if list.len() == 0 {
        list
    } else if list[0] == x {
        list.skip(1)
    } else {
        seq![list[0]] + without(list.skip(1), x)
    }
}

/// Takes the first occurrence of `x` out of a list. Returns whether there was one.
pub fn take_out(list: &mut Vec<String>, x: &str) -> (r: bool)
    ensures
        r == texts(old(list)@).contains(x@),
        texts(final(list)@) == without(texts(old(list)@), x@),
{
    let ghost t = texts(list@);
    let mut i: usize = 0;
    assert(t.take(0) + without(t.skip(0), x@) =~= without(t, x@)) by {
        assert(t.skip(0) =~= t);
    }
    while i < list.len()
        invariant
            i <= list.len(),
            t == texts(list@),
            *list == *old(list),
            forall|k: int| 0 <= k < i ==> (#[trigger] t[k]) != x@,
            t.take(i as int) + without(t.skip(i as int), x@) == without(t, x@),
        decreases list.len() - i,
    {
        assert(t.skip(i as int)[0] == list@[i as int]@);
        assert(t.skip(i as int).skip(1) =~= t.skip(i + 1));
        if same(list[i].as_str(), x) {
            let _ = list.remove(i);
            assert(t[i as int] == x@);
            assert(texts(list@) =~= t.take(i as int) + t.skip(i + 1));
            return true;
        }
        assert(t.take(i as int) + (seq![t[i as int]] + without(t.skip(i + 1), x@)) =~= t.take(
            i + 1,
        ) + without(t.skip(i + 1), x@));
        i += 1;
    }
    assert(t.skip(i as int).len() == 0);
    assert(t.take(i as int) + without(t.skip(i as int), x@) =~= t);
    false
}

impl DeskV {
    /// Every question that waits was asked, and none waits twice.
    pub open spec fn wf(self) -> bool {
        can_wait("pt"@, self.tools, self.asked) && can_wait("veto"@, self.vetoes, self.asked)
    }
}

impl Desk {
    /// The desk of a process; one without a host asks nothing.
    pub fn new(host: bool) -> (r: Desk)
        ensures
            r@.wf(),
            r@ == (DeskV {
                host,
                guarded: false,
                asked: 0,
                tools: Seq::empty(),
                vetoes: Seq::empty(),
            }),
    {
        let r = Desk { host, guarded: false, asked: 0, tools: Vec::new(), vetoes: Vec::new() };
        assert(r@.tools =~= Seq::empty());
        assert(r@.vetoes =~= Seq::empty());
        r
    }
}

/// What the host is asked to do for a plugin tool.
pub open spec fn tool_question(id: Seq<char>, name: Seq<char>, args: JsonV) -> JsonV {
    obj().with_text("sid"@, id).with_text("name"@, name).with_text("arguments"@, written(args))
}

/// What the guards are asked about a call.
pub open spec fn veto_question(
    id: Seq<char>,
    session: Seq<char>,
    tool: Seq<char>,
    args: JsonV,
) -> JsonV {
    obj().with_text("id"@, id).with_text("sid"@, session).with_text("tool"@, tool).with_text(
        "arguments"@,
        written(args),
    )
}

/// Asks the host to run a plugin tool. Returns the id of the question, and what the host is
/// told; or an error where there is no host.
pub fn request(desk: &mut Desk, name: &str, args: &Json, ms: u64) -> (r: Result<
    (String, Json),
    String,
>)
    requires
        old(desk).asked < u64::MAX,
    ensures
        match r {
            Ok((id, q)) => {
                &&& old(desk).host
                &&& id@ == question_id("pt"@, ms, old(desk).asked)
                &&& q@ == tool_question(id@, name@, args@)
                &&& final(desk)@ == (DeskV {
                    asked: (old(desk).asked + 1) as u64,
                    tools: old(desk)@.tools.push(id@),
                    ..old(desk)@
                })
            },
            Err(e) => {
                &&& !old(desk).host
                &&& e@
                    == "plugin tools need the desktop app: there is no plugin host in this process"@
                &&& final(desk)@ == old(desk)@
            },
        },
        old(desk)@.wf() ==> final(desk)@.wf(),
{
    if !desk.host {
        return Err(
            "plugin tools need the desktop app: there is no plugin host in this process".to_string(),
        );
    }
    proof {
        if desk@.wf() {
            one_more_waits("pt"@, desk@.tools, desk.asked, ms);
            they_still_wait("veto"@, desk@.vetoes, desk.asked);
        }
    }
    let id = next_id("pt", ms, desk.asked);
    desk.asked = desk.asked + 1;
    let ghost before = texts(desk.tools@);
    desk.tools.push(id.clone());
    assert(texts(desk.tools@) =~= before.push(id@));
    let q = object().with_text("sid", id.as_str()).with_text("name", name).with_text(
        "arguments",
        render(args).as_str(),
    );
    Ok((id, q))
}

/// Whether `r` is what is handed on of the host's answer for a plugin tool, given whether the
/// question still waits.
pub open spec fn handed_on(
    r: Option<Result<String, String>>,
    waits: bool,
    ok: bool,
    output: Seq<char>,
) -> bool {
    match r {
        Some(Ok(o)) => waits && ok && o@ == output,
        Some(Err(e)) => waits && !ok && e@ == output,
        None => !waits,
    }
}

/// Takes the host's answer for a plugin tool. It is handed on only where the question still
/// waits, so that each is answered once.
pub fn resolve(desk: &mut Desk, sid: &str, ok: bool, output: String) -> (r: Option<
    Result<String, String>,
>)
    ensures
        handed_on(r, old(desk)@.tools.contains(sid@), ok, output@),
        final(desk)@ == (DeskV { tools: without(old(desk)@.tools, sid@), ..old(desk)@ }),
        old(desk)@.wf() ==> final(desk)@.wf(),
{
    proof {
        if desk@.wf() {
            the_others_wait("pt"@, desk@.tools, desk.asked, sid@);
        }
    }
    if take_out(&mut desk.tools, sid) {
        if ok {
            Some(Ok(output))
        } else {
            Some(Err(output))
        }
    } else {
        None
    }
}

/// Gives up on a plugin tool that has taken too long.
pub fn give_up(desk: &mut Desk, sid: &str, name: &str) -> (r: String)
    ensures
        r@ == "plugin tool '"@ + name@ + "' timed out after "@ + decimal_of(TOOL_TIMEOUT as nat)
            + "s"@,
        final(desk)@ == (DeskV { tools: without(old(desk)@.tools, sid@), ..old(desk)@ }),
        old(desk)@.wf() ==> final(desk)@.wf(),
{
    proof {
        if desk@.wf() {
            the_others_wait("pt"@, desk@.tools, desk.asked, sid@);
        }
    }
    let _ = take_out(&mut desk.tools, sid);
    let mut s = "plugin tool '".to_string();
    s.append(name);
    s.append("' timed out after ");
    s.append(decimal(TOOL_TIMEOUT).as_str());
    s.append("s");
    s
}

/// Notes whether a plugin watches tool calls.
pub fn set_veto_active(desk: &mut Desk, active: bool)
    ensures
        final(desk)@ == (DeskV { guarded: active, ..old(desk)@ }),
        old(desk)@.wf() ==> final(desk)@.wf(),
{
    desk.guarded = active;
}

/// Whether a plugin watches tool calls.
pub fn veto_active(desk: &Desk) -> (r: bool)
    ensures
        r == desk.guarded,
{
    desk.guarded
}

/// Asks the guards about a call. Returns the id of the question and what the host is told; none
/// where nobody can answer, and the call may proceed.
pub fn veto(desk: &mut Desk, session: &str, tool: &str, args: &Json, ms: u64) -> (r: Option<
    (String, Json),
>)
    requires
        old(desk).asked < u64::MAX,
    ensures
        match r {
            Some((id, q)) => {
                &&& old(desk).guarded && old(desk).host
                &&& id@ == question_id("veto"@, ms, old(desk).asked)
                &&& q@ == veto_question(id@, session@, tool@, args@)
                &&& final(desk)@ == (DeskV {
                    asked: (old(desk).asked + 1) as u64,
                    vetoes: old(desk)@.vetoes.push(id@),
                    ..old(desk)@
                })
            },
            None => !(old(desk).guarded && old(desk).host) && final(desk)@ == old(desk)@,
        },
        old(desk)@.wf() ==> final(desk)@.wf(),
{
    if !veto_active(desk) || !desk.host {
        return None;
    }
    proof {
        if desk@.wf() {
            one_more_waits("veto"@, desk@.vetoes, desk.asked, ms);
            they_still_wait("pt"@, desk@.tools, desk.asked);
        }
    }
    let id = next_id("veto", ms, desk.asked);
    desk.asked = desk.asked + 1;
    let ghost before = texts(desk.vetoes@);
    desk.vetoes.push(id.clone());
    assert(texts(desk.vetoes@) =~= before.push(id@));
    let q = object().with_text("id", id.as_str()).with_text("sid", session).with_text(
        "tool",
        tool,
    ).with_text("arguments", render(args).as_str());
    Some((id, q))
}

/// A reason that says something.
pub open spec fn real_reason(reason: Option<Seq<char>>) -> Option<Seq<char>> {
    match reason {
        Some(r) => if blank(r) {
            None
        } else {
            Some(r)
        },
        None => None,
    }
}

/// Takes the answer of the guards: a reason to refuse the call, if they gave one. It is handed
/// on only where the question still waits.
pub fn veto_resolve(desk: &mut Desk, id: &str, reason: Option<String>) -> (r: Option<
    Option<String>,
>)
    ensures
        match r {
            Some(answer) => old(desk)@.vetoes.contains(id@) && opt_text(answer) == real_reason(
                opt_text(reason),
            ),
            None => !old(desk)@.vetoes.contains(id@),
        },
        final(desk)@ == (DeskV { vetoes: without(old(desk)@.vetoes, id@), ..old(desk)@ }),
        old(desk)@.wf() ==> final(desk)@.wf(),
{
    proof {
        if desk@.wf() {
            the_others_wait("veto"@, desk@.vetoes, desk.asked, id@);
        }
    }
    if take_out(&mut desk.vetoes, id) {
        match reason {
            Some(t) => {
                let s = trim(t.as_str());
                proof {
                    trim_is_empty_iff_blank(t@);
                }
                if s.as_str().unicode_len() == 0 {
                    Some(None)
                } else {
                    Some(Some(t))
                }
            },
            None => Some(None),
        }
    } else {
        None
    }
}

/// What comes of asking the guards. No answer allows the call: a plugin that fails must not be
/// able to stop the agent.
pub fn veto_outcome(desk: &mut Desk, id: &str, answer: Option<Option<String>>) -> (r: Option<
    String,
>)
    ensures
        r == (match answer {
            Some(a) => a,
            None => None,
        }),
        final(desk)@ == (DeskV { vetoes: without(old(desk)@.vetoes, id@), ..old(desk)@ }),
        old(desk)@.wf() ==> final(desk)@.wf(),
{
    proof {
        if desk@.wf() {
            the_others_wait("veto"@, desk@.vetoes, desk.asked, id@);
        }
    }
    let _ = take_out(&mut desk.vetoes, id);
    match answer {
        Some(a) => a,
        None => None,
    }
}

/// What is left of a list is what was in it, but for `x`; and where nothing occurs twice, nothing
/// does afterwards and `x` is gone.
pub proof fn without_one(list: Seq<Seq<char>>, x: Seq<char>)
    ensures
        forall|y: Seq<char>| #[trigger] without(list, x).contains(y) ==> list.contains(y),
        forall|y: Seq<char>| #[trigger]
            list.contains(y) && y != x ==> without(list, x).contains(y),
        !list.contains(x) ==> without(list, x) == list,
        no_twice(list) ==> no_twice(without(list, x)) && !without(list, x).contains(x),
    decreases list.len(),
{
    if list.len() > 0 {
        let t = list.skip(1);
        let w = without(list, x);
        let u = without(t, x);
        without_one(t, x);
        assert(list =~= seq![list[0]] + t);
        assert forall|y: Seq<char>| #[trigger] w.contains(y) implies list.contains(y) by {
            let k = choose|k: int| 0 <= k < w.len() && w[k] == y;
            if list[0] == x {
                assert(list[k + 1] == y);
            } else if k > 0 {
                assert(u[k - 1] == y);
                assert(u.contains(y));
                let i = choose|i: int| 0 <= i < t.len() && t[i] == y;
                assert(list[i + 1] == y);
            }
        }
        assert forall|y: Seq<char>| #[trigger] list.contains(y) && y != x implies w.contains(y) by {
            let k = choose|k: int| 0 <= k < list.len() && list[k] == y;
            if list[0] == x {
                assert(w[k - 1] == y);
            } else if k == 0 {
                assert(w[0] == y);
            } else {
                assert(t[k - 1] == y);
                assert(t.contains(y));
                let i = choose|i: int| 0 <= i < u.len() && u[i] == y;
                assert(w[i + 1] == y);
            }
        }
        if !list.contains(x) {
            assert(list[0] != x);
            if t.contains(x) {
                let i = choose|i: int| 0 <= i < t.len() && t[i] == x;
                assert(list[i + 1] == x);
            }
            assert(w =~= list);
        }
        if no_twice(list) {
            assert forall|i: int, j: int| 0 <= i < j < t.len() implies t[i] != t[j] by {
                assert(list[i + 1] != list[j + 1]);
            }
            if list[0] == x {
                assert(w =~= t);
                if w.contains(x) {
                    let k = choose|k: int| 0 <= k < w.len() && w[k] == x;
                    assert(list[0] != list[k + 1]);
                }
            } else {
                assert forall|i: int, j: int| 0 <= i < j < w.len() implies w[i] != w[j] by {
                    if i > 0 {
                        assert(u[i - 1] != u[j - 1]);
                    } else {
                        assert(u.contains(u[j - 1]));
                        let k = choose|k: int| 0 <= k < t.len() && t[k] == u[j - 1];
                        assert(list[0] != list[k + 1]);
                    }
                }
                if w.contains(x) {
                    let k = choose|k: int| 0 <= k < w.len() && w[k] == x;
                    assert(u[k - 1] == x);
                    assert(u.contains(x));
                }
            }
        }
    }
}

/// A question is answered once: after its answer it waits no more, a second answer or one to a
/// question that nobody waits for changes nothing, and the others wait as before.
pub proof fn questions_are_answered_once(desk: DeskV, id: Seq<char>, other: Seq<char>)
    requires
        desk.wf(),
    ensures
        !without(desk.tools, id).contains(id),
        !without(desk.vetoes, id).contains(id),
        without(without(desk.tools, id), id) == without(desk.tools, id),
        without(without(desk.vetoes, id), id) == without(desk.vetoes, id),
        !desk.tools.contains(id) ==> without(desk.tools, id) == desk.tools,
        !desk.vetoes.contains(id) ==> without(desk.vetoes, id) == desk.vetoes,
        other != id ==> without(desk.tools, id).contains(other) == desk.tools.contains(other),
        other != id ==> without(desk.vetoes, id).contains(other) == desk.vetoes.contains(other),
{
    without_one(desk.tools, id);
    without_one(desk.vetoes, id);
    without_one(without(desk.tools, id), id);
    without_one(without(desk.vetoes, id), id);
}

/// No two questions share an id, not even those of one millisecond.
pub proof fn question_ids_differ(prefix: Seq<char>, ms: u64, n: u64, later: u64, m: u64)
    requires
        n != m,
    ensures
        question_id(prefix, ms, n) != question_id(prefix, later, m),
{
    reveal_strlit("_");
    let p = prefix + decimal_of(ms as nat);
    let q = prefix + decimal_of(later as nat);
    assert(question_id(prefix, ms, n) =~= p.push('_') + decimal_of(n as nat));
    assert(question_id(prefix, later, m) =~= q.push('_') + decimal_of(m as nat));
    if question_id(prefix, ms, n) == question_id(prefix, later, m) {
        numbered_endings_tell_apart(p, n as nat, q, m as nat, '_');
    }
}

// ---- what is known of a plugin -------------------------------------------------------------------------

/// What a manifest says of a plugin is what is known of it: its name, its version, what it is for,
/// what it asks for, and its module. One that asks only for what is known, and whose module is
/// there, can be loaded.
pub proof fn a_plugin_is_what_its_manifest_says(
    folder: Seq<char>,
    dir: Seq<char>,
    scope: Seq<char>,
    mf: PluginManifest,
    entry_exists: bool,
)
    ensures
        ({
            let p = known_of(folder, dir, scope, ManifestFile::Read(mf), entry_exists);
            &&& p.name == folder && p.dir == dir && p.scope == scope && p.enabled
            &&& p.version == mf.version@
            &&& p.description == mf.description@
            &&& p.capabilities.len() == mf.capabilities@.len()
            &&& forall|i: int|
                0 <= i < mf.capabilities@.len() ==> #[trigger] p.capabilities[i] == trim_of(
                    mf.capabilities@[i]@,
                )
            &&& !blank(mf.name@) ==> p.display == trim_of(mf.name@)
            &&& blank(mf.name@) ==> p.display == folder
            &&& !blank(mf.entry@) ==> p.entry == trim_of(mf.entry@)
            &&& blank(mf.entry@) ==> p.entry == "index.js"@
            &&& (forall|i: int|
                0 <= i < mf.capabilities@.len() ==> capabilities().contains(
                    trim_of((#[trigger] mf.capabilities@[i])@),
                )) && entry_exists ==> p.error.len() == 0
            &&& (forall|i: int|
                0 <= i < mf.capabilities@.len() ==> capabilities().contains(
                    trim_of((#[trigger] mf.capabilities@[i])@),
                )) && !entry_exists ==> within(p.entry, p.error)
        }),
{
    let p = known_of(folder, dir, scope, ManifestFile::Read(mf), entry_exists);
    let caps = trimmed(texts(mf.capabilities@));
    if forall|i: int|
        0 <= i < mf.capabilities@.len() ==> capabilities().contains(
            trim_of((#[trigger] mf.capabilities@[i])@),
        ) {
        assert forall|i: int| 0 <= i < caps.len() implies capabilities().contains(
            #[trigger] caps[i],
        ) by {
            assert(caps[i] == trim_of(mf.capabilities@[i]@));
        }
        nothing_unknown(caps);
        if !entry_exists {
            between("entry file '"@, p.entry, "' is missing"@, p.error);
        }
    }
}

proof fn nothing_unknown(caps: Seq<Seq<char>>)
    requires
        forall|i: int| 0 <= i < caps.len() ==> capabilities().contains(#[trigger] caps[i]),
    ensures
        unknown(caps).len() == 0,
    decreases caps.len(),
{
    if caps.len() > 0 {
        assert(caps.last() == caps[caps.len() - 1]);
        assert forall|i: int| 0 <= i < caps.drop_last().len() implies capabilities().contains(
            #[trigger] caps.drop_last()[i],
        ) by {
            assert(caps.drop_last()[i] == caps[i]);
        }
        nothing_unknown(caps.drop_last());
    }
}

/// What may be asked for.
pub proof fn what_may_be_asked_for(c: Seq<char>)
    ensures
        capabilities().contains(c) <==> c == "tools"@ || c == "events"@ || c == "commands"@ || c
            == "ui"@ || c == "network"@ || c == "session-read"@ || c == "views"@ || c == "fs"@ || c
            == "pty"@,
{
    let k = capabilities();
    assert(k[0] == "tools"@ && k[1] == "events"@ && k[2] == "commands"@ && k[3] == "ui"@ && k[4]
        == "network"@ && k[5] == "session-read"@ && k[6] == "views"@ && k[7] == "fs"@ && k[8]
        == "pty"@);
}

/// Each capability that is not known is named in the error.
pub proof fn what_is_unknown_is_named(
    folder: Seq<char>,
    dir: Seq<char>,
    scope: Seq<char>,
    mf: PluginManifest,
    entry_exists: bool,
    i: int,
)
    requires
        0 <= i < mf.capabilities@.len(),
        !capabilities().contains(trim_of(mf.capabilities@[i]@)),
    ensures
        within(
            trim_of(mf.capabilities@[i]@),
            known_of(folder, dir, scope, ManifestFile::Read(mf), entry_exists).error,
        ),
{
    let caps = trimmed(texts(mf.capabilities@));
    let x = trim_of(mf.capabilities@[i]@);
    assert(caps[i] == x);
    unknown_names(caps, i);
    let u = unknown(caps);
    let k = choose|k: int| 0 <= k < u.len() && u[k] == x;
    joined_within(u, ", "@, k);
    let t = unknown_text(u);
    let a = "unknown capabilit"@ + (if u.len() == 1 {
        "y"@
    } else {
        "ies"@
    }) + ": "@;
    let list = join_of(u, ", "@);
    between(a, list, t.skip((a.len() + list.len()) as int), t);
    within_whole(x, list, t);
}

proof fn unknown_names(caps: Seq<Seq<char>>, i: int)
    requires
        0 <= i < caps.len(),
        !capabilities().contains(caps[i]),
    ensures
        unknown(caps).contains(caps[i]),
    decreases caps.len(),
{
    let u = unknown(caps);
    if i == caps.len() - 1 {
        assert(u[u.len() - 1] == caps[i]);
    } else {
        let d = caps.drop_last();
        unknown_names(d, i);
        let p = unknown(d);
        let k = choose|k: int| 0 <= k < p.len() && p[k] == d[i];
        assert(u[k] == caps[i]);
    }
}

/// A manifest that cannot be read, or is none, is told, with the reason; the plugin is shown all the
/// same, by the name of its folder.
pub proof fn a_broken_manifest_is_told(
    folder: Seq<char>,
    dir: Seq<char>,
    scope: Seq<char>,
    why: String,
    entry_exists: bool,
)
    ensures
        ({
            let a = known_of(folder, dir, scope, ManifestFile::Unreadable(why), entry_exists);
            let b = known_of(folder, dir, scope, ManifestFile::Invalid(why), entry_exists);
            &&& within(why@, a.error) && within(why@, b.error)
            &&& a.error.len() > 0 && b.error.len() > 0
            &&& a.name == folder && b.name == folder && a.display == folder && b.display == folder
            &&& a.dir == dir && b.dir == dir && a.scope == scope && b.scope == scope
            &&& a.capabilities.len() == 0 && b.capabilities.len() == 0
        }),
{
    reveal_strlit("cannot read plugin.json: ");
    reveal_strlit("plugin.json is not valid JSON: ");
    between("cannot read plugin.json: "@, why@, Seq::empty(), "cannot read plugin.json: "@ + why@);
    between(
        "plugin.json is not valid JSON: "@,
        why@,
        Seq::empty(),
        "plugin.json is not valid JSON: "@ + why@,
    );
}

/// Every plugin that was found and is not hidden is discovered, unless a later one has its name, and
/// no hidden one is.
pub proof fn every_plugin_is_discovered(found: Seq<PluginV>, i: int)
    requires
        0 <= i < found.len(),
        forall|j: int| i < j < found.len() ==> (#[trigger] found[j]).name != found[i].name,
    ensures
        found[i].name.len() == 0 || found[i].name[0] != '.' ==> discovered(found).contains(found[i]),
        found[i].name.len() > 0 && found[i].name[0] == '.' ==> !discovered(found).contains(found[i]),
    decreases found.len(),
{
    let x = found[i];
    let d = found.drop_last();
    let l = found.last();
    reveal_strlit(".");
    assert("."@.len() == 1);
    assert(starts(x.name, "."@) <==> x.name.len() > 0 && x.name[0] == '.') by {
        if x.name.len() > 0 && x.name[0] == '.' {
            assert(x.name.take(1) =~= "."@);
        }
        if starts(x.name, "."@) {
            assert(x.name.take(1)[0] == "."@[0]);
        }
    }
    discovered_is_in_order(d);
    if starts(x.name, "."@) {
        nothing_hidden_is_discovered(found, x);
    } else if i < d.len() {
        assert(d[i] == x);
        assert forall|j: int| i < j < d.len() implies (#[trigger] d[j]).name != d[i].name by {
            assert(d[j] == found[j]);
        }
        every_plugin_is_discovered(d, i);
        if !starts(l.name, "."@) {
            assert(found[found.len() - 1].name != x.name);
            assert(PluginInfo::name_in(x) == x.name);
            assert(PluginInfo::name_in(l) == l.name);
            filing_keeps_order::<PluginInfo>(discovered(d), l);
        }
    } else {
        filing_keeps_order::<PluginInfo>(discovered(d), l);
    }
}

proof fn nothing_hidden_is_discovered(found: Seq<PluginV>, x: PluginV)
    requires
        starts(x.name, "."@),
    ensures
        !discovered(found).contains(x),
    decreases found.len(),
{
    if found.len() > 0 {
        let d = found.drop_last();
        nothing_hidden_is_discovered(d, x);
        if !starts(found.last().name, "."@) {
            discovered_is_in_order(d);
            filing_keeps_order::<PluginInfo>(discovered(d), found.last());
            assert(PluginInfo::name_in(x) == x.name);
            assert(PluginInfo::name_in(found.last()) == found.last().name);
        }
    }
}

/// The host is told what it is asked: by the question's id, the tool by its name, and the arguments
/// as JSON.
pub proof fn the_host_is_told_all(id: Seq<char>, session: Seq<char>, name: Seq<char>, args: JsonV)
    ensures
        ({
            let q = tool_question(id, name, args);
            let v = veto_question(id, session, name, args);
            &&& q.field("sid"@) == Some(JsonV::Text(id))
            &&& q.field("name"@) == Some(JsonV::Text(name))
            &&& q.field("arguments"@) == Some(JsonV::Text(written(args)))
            &&& v.field("id"@) == Some(JsonV::Text(id))
            &&& v.field("sid"@) == Some(JsonV::Text(session))
            &&& v.field("tool"@) == Some(JsonV::Text(name))
            &&& v.field("arguments"@) == Some(JsonV::Text(written(args)))
        }),
{
    broadcast use a_field_reads_back, no_field_to_read;

    reveal_strlit("sid");
    reveal_strlit("name");
    reveal_strlit("arguments");
    reveal_strlit("id");
    reveal_strlit("tool");
    assert("sid"@.len() == 3);
    assert("name"@.len() == 4);
    assert("arguments"@.len() == 9);
    assert("id"@.len() == 2);
    assert("tool"@.len() == 4);
    assert("name"@[0] == 'n' && "tool"@[0] == 't');
}

/// A reason that says something stops a call, in its own words; a blank one, or none, does not.
pub proof fn a_reason_counts_where_it_says_something(r: Seq<char>)
    ensures
        !blank(r) ==> real_reason(Some(r)) == Some(r),
        blank(r) ==> real_reason(Some(r)) is None,
        real_reason(None) is None,
{
}

/// Only a folder of its own gives a project a path below it: one that is named and absolute.
pub proof fn a_relative_workspace_has_nothing_below(w: Seq<char>, joined: Seq<char>)
    ensures
        !blank(w) ==> below_of(Some(w), true, joined) == Some(joined),
        below_of(Some(w), false, joined) is None,
        blank(w) ==> below_of(Some(w), true, joined) is None,
        below_of(None, true, joined) is None,
{
}

/// The folder of the user comes first, and that of the project behind it; either may be missing.
pub proof fn the_users_folder_comes_first(user: Seq<char>, project: Seq<char>)
    ensures
        dirs_of(Some(user), Some(project)) == seq![("global"@, user), ("project"@, project)],
        dirs_of(Some(user), None) == seq![("global"@, user)],
        dirs_of(None, Some(project)) == seq![("project"@, project)],
        dirs_of(None, None) == Seq::<(Seq<char>, Seq<char>)>::empty(),
{
    assert(dirs_of(Some(user), Some(project)) =~= seq![("global"@, user), ("project"@, project)]);
    assert(dirs_of(None, Some(project)) =~= seq![("project"@, project)]);
}

/// What the host answers is handed on as it is, where somebody waits for it: as a result where the
/// tool succeeded, and as an error where it did not.
pub proof fn what_the_host_answers_is_handed_on(
    r: Option<Result<String, String>>,
    waits: bool,
    ok: bool,
    output: Seq<char>,
)
    requires
        handed_on(r, waits, ok, output),
    ensures
        waits && ok ==> (r matches Some(Ok(o)) && o@ == output),
        waits && !ok ==> (r matches Some(Err(e)) && e@ == output),
        !waits ==> r is None,
{
}

} // verus!
