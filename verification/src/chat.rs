//! What a front end asks of a chat.

use vstd::prelude::*;

use crate::bytes::{cut, cut_at, lossy, lossy_of};
use crate::engine::config::{choosing_a_model_moves_the_connection, on_model, Config, ConfigV};
use crate::engine::tools::{no_folder_text, relative_text};
use crate::json::{json_parse, obj, object, parse, Json, JsonV};
use crate::paths::{
    a_path_keeps_its_ends, is_absolute, join_path, may_lead_to, plainly_relative, verbatim,
};
use crate::text::{
    between, blank, byte_len, chars_of, ends, is_blank, len_of, opt_str, same, starts, string_of,
    texts, trim, trim_is_empty_iff_blank, trim_of, within,
};

verus! {

// ---- sending a message -------------------------------------------------------------------------------

/// The chat that is meant: the one that is named, or else the open one.
pub open spec fn target_of(sid: Option<Seq<char>>, current: Seq<char>) -> Seq<char> {
    match sid {
        Some(s) => if blank(s) {
            current
        } else {
            trim_of(s)
        },
        None => current,
    }
}

/// The chat that is meant: the one that is named, or else the open one. A message typed in one
/// chat must never land in another.
pub fn target(sid: Option<&str>, current: &str) -> (r: String)
    ensures
        r@ == target_of(opt_str(sid), current@),
{
    match sid {
        Some(s) => {
            let t = trim(s);
            proof {
                trim_is_empty_iff_blank(s@);
            }
            if t.as_str().unicode_len() == 0 {
                current.to_string()
            } else {
                t
            }
        },
        None => current.to_string(),
    }
}

/// `s` without the byte order marks that it begins with.
pub open spec fn unmarked(s: Seq<char>) -> Seq<char>
    decreases s.len(),
{
    if s.len() > 0 && s[0] == '\u{feff}' {
        unmarked(s.skip(1))
    } else {
        s
    }
}

/// A message as it is sent.
pub open spec fn message_of(text: Seq<char>) -> Seq<char> {
    trim_of(unmarked(text))
}

fn clean(text: &str) -> (r: String)
    ensures
        r@ == message_of(text@),
{
    let v = chars_of(text);
    let mut n: usize = 0;
    assert(text@.skip(0) =~= text@);
    while n < v.len() && v[n] == '\u{feff}'
        invariant
            n <= v.len(),
            v@ == text@,
            unmarked(text@) == unmarked(text@.skip(n as int)),
        decreases v.len() - n,
    {
        assert(text@.skip(n as int).skip(1) =~= text@.skip(n + 1));
        n += 1;
    }
    assert(v@.subrange(n as int, v@.len() as int) =~= text@.skip(n as int));
    let rest = string_of(&v, n, v.len());
    trim(rest.as_str())
}

/// The chat that a message goes to, and the message as it is sent.
pub fn prepare_message(sid: Option<&str>, current: &str, text: &str) -> (r: Result<
    (String, String),
    String,
>)
    ensures
        match r {
            Ok((chat, message)) => {
                &&& chat@ == target_of(opt_str(sid), current@)
                &&& chat@.len() > 0
                &&& message@ == message_of(text@)
                &&& message@.len() > 0
            },
            Err(e) => if target_of(opt_str(sid), current@).len() == 0 {
                e@ == "no chat selected"@
            } else {
                message_of(text@).len() == 0 && e@ == "empty message"@
            },
        },
{
    let chat = target(sid, current);
    if chat.as_str().unicode_len() == 0 {
        return Err("no chat selected".to_string());
    }
    let message = clean(text);
    if message.as_str().unicode_len() == 0 {
        return Err("empty message".to_string());
    }
    Ok((chat, message))
}

/// The settings of a chat's run: those of the chat, where it has any.
pub open spec fn run_settings(
    config: ConfigV,
    workspace: Seq<char>,
    model: Seq<char>,
    provider: Seq<char>,
) -> ConfigV {
    let c = ConfigV {
        workspace: if workspace.len() > 0 {
            workspace
        } else {
            config.workspace
        },
        ..config
    };
    if model.len() > 0 {
        on_model(c, model, provider)
    } else {
        c
    }
}

/// The settings of a chat's run: the chat decides where the tools work, and which model it is on,
/// and so which provider it talks to.
pub fn run_config(config: Config, workspace: &str, model: &str, provider: &str) -> (r: Config)
    ensures
        r@ == run_settings(config@, workspace@, model@, provider@),
{
    let mut c = config;
    if workspace.unicode_len() > 0 {
        c.workspace = workspace.to_string();
    }
    if model.unicode_len() > 0 {
        c.use_model(model, provider)
    } else {
        c
    }
}

/// The state of a chat after a run.
pub fn state_after(error: bool) -> (r: String)
    ensures
        r@ == if error {
            "error"@
        } else {
            "idle"@
        },
{
    if error {
        "error".to_string()
    } else {
        "idle".to_string()
    }
}

// ---- attachments ----------------------------------------------------------------------------------------

/// The most bytes of an attachment.
pub const MAX_ATTACHMENT: usize = 200_000;

/// The text of an attachment, cut where it is too long.
pub open spec fn attachment_text(data: Seq<u8>) -> Seq<char> {
    let t = lossy_of(data);
    if byte_len(t) > MAX_ATTACHMENT {
        cut(t, MAX_ATTACHMENT as int) + "\n… (truncated)"@
    } else {
        t
    }
}

/// A file that was attached to a message, with its text.
pub fn attachment(path: &str, data: &[u8]) -> (r: Json)
    ensures
        r@ == obj().with_text("path"@, path@).with_text("content"@, attachment_text(data@)),
{
    let t = lossy(data);
    let content: String = if len_of(t.as_str()) > MAX_ATTACHMENT {
        let mut s = cut_at(t.as_str(), MAX_ATTACHMENT);
        s.append("\n… (truncated)");
        s
    } else {
        t
    };
    object().with_text("path", path).with_text("content", content.as_str())
}

/// The path of an attachment: as it is where it is absolute, and otherwise `joined` to the folder
/// of the chat.
pub open spec fn attachment_place(path: Seq<char>, absolute: bool, joined: Seq<char>) -> Seq<char> {
    if absolute {
        path
    } else {
        joined
    }
}

/// The path of an attachment, once it is known whether it is absolute and what joining it to the
/// folder of the chat gives.
pub fn attachment_path_with(path: &str, absolute: bool, joined: &str) -> (r: String)
    ensures
        r@ == attachment_place(path@, absolute, joined@),
{
    if absolute {
        path.to_string()
    } else {
        joined.to_string()
    }
}

/// The path of an attachment: as it is where it is absolute, and otherwise in the folder of the
/// chat.
pub fn attachment_path(path: &str, workspace: &str) -> (r: String)
    ensures
        may_lead_to(workspace@, path@, r@),
        !verbatim(workspace@) ==> ends(r@, path@),
        !verbatim(workspace@) && plainly_relative(path@) ==> starts(r@, workspace@),
{
    let absolute: bool = is_absolute(path);
    let joined = join_path(workspace, path);
    let r = attachment_path_with(path, absolute, joined.as_str());
    proof {
        if !verbatim(workspace@) {
            a_path_keeps_its_ends(workspace@, path@, r@);
        }
    }
    r
}

// ---- folders -------------------------------------------------------------------------------------------

/// Whether a folder is of any use to a project, once it is known whether its path is absolute and
/// whether it is there.
pub open spec fn usable(path: Seq<char>, absolute: bool, exists: bool) -> bool {
    !blank(path) && absolute && exists
}

/// Whether a folder is of any use to a project, once it is known whether its path is absolute and
/// whether it is there.
pub fn path_is_dir_with(path: &str, absolute: bool, exists: bool) -> (r: bool)
    ensures
        r == usable(path@, absolute, exists),
{
    !is_blank(path) && absolute && exists
}

/// Whether a folder is of any use to a project; `exists` says whether it is there. A relative path
/// is of none, even where it leads somewhere from here.
pub fn path_is_dir(path: &str, exists: bool) -> (r: bool)
    ensures
        exists|absolute: bool| r == #[trigger] usable(path@, absolute, exists),
        plainly_relative(trim_of(path@)) ==> !r,
        blank(path@) ==> !r,
        !exists ==> !r,
{
    let t = trim(path);
    path_is_dir_with(path, is_absolute(t.as_str()), exists)
}

pub open spec fn absent_folder_text(ws: Seq<char>) -> Seq<char> {
    "project folder does not exist: "@ + ws
}

/// Whether `r` is the folder that a pane may show, or why there is none.
pub open spec fn pane_folder(
    r: Result<String, String>,
    workspace: Seq<char>,
    absolute: bool,
    exists: bool,
) -> bool {
    let ws = trim_of(workspace);
    match r {
        Ok(p) => usable(workspace, absolute, exists) && p@ == ws,
        Err(e) => if blank(workspace) {
            e@ == no_folder_text()
        } else if !absolute {
            e@ == relative_text(ws)
        } else {
            !exists && e@ == absent_folder_text(ws)
        },
    }
}

/// The folder that a pane may show, once it is known whether its path is absolute and whether it
/// is there.
pub fn pane_root_with(workspace: &str, absolute: bool, exists: bool) -> (r: Result<String, String>)
    ensures
        pane_folder(r, workspace@, absolute, exists),
{
    let ws = trim(workspace);
    proof {
        trim_is_empty_iff_blank(workspace@);
    }
    if ws.as_str().unicode_len() == 0 {
        return Err(
            "this chat has no project folder. Pick one for its project (sidebar → ✎).".to_string(),
        );
    }
    if !absolute {
        let mut s = "project folder is a relative path (".to_string();
        s.append(ws.as_str());
        s.append("), so it would resolve differently depending on where the app was started. Pick a real folder for this project (sidebar → ✎).");
        return Err(s);
    }
    if !exists {
        let mut s = "project folder does not exist: ".to_string();
        s.append(ws.as_str());
        return Err(s);
    }
    Ok(ws)
}

/// The folder that a pane may show: that of the chat, which the pane does not choose. `exists`
/// says whether it is there.
pub fn pane_root(workspace: &str, exists: bool) -> (r: Result<String, String>)
    ensures
        exists|absolute: bool| #[trigger] pane_folder(r, workspace@, absolute, exists),
        plainly_relative(trim_of(workspace@)) ==> pane_folder(r, workspace@, false, exists),
        blank(workspace@) ==> r is Err,
        !exists ==> r is Err,
{
    let ws = trim(workspace);
    let absolute: bool = is_absolute(ws.as_str());
    let r = pane_root_with(workspace, absolute, exists);
    assert(pane_folder(r, workspace@, absolute, exists));
    r
}

// ---- commands over a pipe ------------------------------------------------------------------------------

/// A command that was read from a line.
#[derive(Debug)]
pub enum Command {
    /// Stop the run.
    Stop,
    /// Start a run with this message and these pictures.
    Send { text: String, images: Vec<String> },
    /// Forget the conversation.
    Reset,
    Unknown,
}

/// The texts of a list.
pub open spec fn image_list(v: Option<JsonV>) -> Seq<Seq<char>> {
    match v {
        Some(JsonV::Array(a)) => crate::engine::mcp::texts_in(a),
        _ => Seq::empty(),
    }
}

/// Whether `c` is the command that a value holds.
pub open spec fn commands(c: Command, v: JsonV) -> bool {
    let kind = v.text_field("type"@);
    if kind == Some("stop"@) {
        c is Stop
    } else if kind == Some("send"@) {
        c matches Command::Send { text, images } && text@ == (match v.text_field("text"@) {
            Some(t) => t,
            None => Seq::empty(),
        }) && texts(images@) == image_list(v.field("images"@))
    } else if kind == Some("reset"@) {
        c is Reset
    } else {
        c is Unknown
    }
}

/// Reads a command: the id to answer to, and what is to be done. A line that is no JSON is none.
pub fn read_command(line: &str) -> (r: Option<(Json, Command)>)
    ensures
        match json_parse(line@) {
            Some(v) => r matches Some((id, c)) && commands(c, v) && id@ == (match v.field("id"@) {
                Some(i) => i,
                None => JsonV::Null,
            }),
            None => r is None,
        },
{
    let v = match parse(line) {
        Some(v) => v,
        None => {
            return None;
        },
    };
    let id: Json = match v.get("id") {
        Some(i) => i.copy(),
        None => Json::Null,
    };
    proof {
        reveal_strlit("stop");
        reveal_strlit("send");
        reveal_strlit("reset");
        assert("stop"@[1] == 't');
        assert("send"@[1] == 'e');
        assert("reset"@.len() == 5);
        assert("stop"@ != "send"@);
    }
    let kind: String = match v.get_str("type") {
        Some(k) => k,
        None => {
            return Some((id, Command::Unknown));
        },
    };
    if same(kind.as_str(), "stop") {
        return Some((id, Command::Stop));
    }
    if same(kind.as_str(), "send") {
        let text: String = match v.get_str("text") {
            Some(t) => t,
            None => String::new(),
        };
        let images: Vec<String> = match v.get("images") {
            Some(a) => match a.as_array() {
                Some(items) => crate::engine::mcp::read_texts(items),
                None => Vec::new(),
            },
            None => Vec::new(),
        };
        assert(texts(images@) =~= image_list(v@.field("images"@)));
        return Some((id, Command::Send { text, images }));
    }
    if same(kind.as_str(), "reset") {
        return Some((id, Command::Reset));
    }
    Some((id, Command::Unknown))
}

/// The answer to a command.
pub fn response(id: &Json, ok: bool, error: Option<&str>) -> (r: Json)
    ensures
        r@ == obj().with_text("type"@, "response"@).with("id"@, id@).with(
            "ok"@,
            JsonV::Bool(ok),
        ).with(
            "error"@,
            match error {
                Some(e) => JsonV::Text(e@),
                None => JsonV::Null,
            },
        ),
{
    object().with_text("type", "response").with("id", id.copy()).with("ok", Json::Bool(ok)).with(
        "error",
        match error {
            Some(e) => Json::Text(e.to_string()),
            None => Json::Null,
        },
    )
}

/// An event, as it is written to a pipe.
pub fn event(kind: &str, payload: Json) -> (r: Json)
    ensures
        r@ == obj().with_text("type"@, "event"@).with_text("event"@, kind@).with(
            "payload"@,
            payload@,
        ),
{
    object().with_text("type", "event").with_text("event", kind).with("payload", payload)
}

// ---- what is sent is what was typed ----------------------------------------------------------------------

/// A message goes to the chat that it names, and to the open one only where it names none.
pub proof fn a_message_goes_where_it_is_meant(sid: Seq<char>, current: Seq<char>)
    ensures
        !blank(sid) ==> target_of(Some(sid), current) == trim_of(sid),
        blank(sid) ==> target_of(Some(sid), current) == current,
        target_of(None, current) == current,
{
}

/// What is typed is what is sent, but for space around it and marks before it.
pub proof fn what_is_typed_is_sent(marks: Seq<char>, text: Seq<char>)
    requires
        forall|i: int| 0 <= i < marks.len() ==> #[trigger] marks[i] == '\u{feff}',
        text.len() > 0 ==> text[0] != '\u{feff}',
    ensures
        message_of(marks + text) == trim_of(text),
    decreases marks.len(),
{
    let s = marks + text;
    if marks.len() == 0 {
        assert(s =~= text);
    } else {
        let m = marks.skip(1);
        assert(s[0] == marks[0]);
        assert(s.skip(1) =~= m + text);
        assert forall|i: int| 0 <= i < m.len() implies #[trigger] m[i] == '\u{feff}' by {
            assert(m[i] == marks[i + 1]);
        }
        what_is_typed_is_sent(m, text);
    }
}

/// An attachment is sent whole where it is short enough, and otherwise up to the limit, with a note.
pub proof fn an_attachment_is_sent(data: Seq<u8>)
    ensures
        byte_len(lossy_of(data)) <= 200_000 ==> attachment_text(data) == lossy_of(data),
        byte_len(lossy_of(data)) > 200_000 ==> attachment_text(data) == cut(lossy_of(data), 200_000)
            + "\n… (truncated)"@,
{
}

/// A command is what its type says, with the text and all the pictures that it carries.
pub proof fn a_command_is_what_it_says(c: Command, v: JsonV)
    requires
        commands(c, v),
    ensures
        v.field("type"@) == Some(JsonV::Text("stop"@)) <==> c is Stop,
        v.field("type"@) == Some(JsonV::Text("send"@)) <==> c is Send,
        v.field("type"@) == Some(JsonV::Text("reset"@)) <==> c is Reset,
        c matches Command::Send { text, images } ==> {
            &&& v.field("text"@) matches Some(JsonV::Text(t)) ==> text@ == t
            &&& !(v.field("text"@) matches Some(JsonV::Text(_))) ==> text@.len() == 0
            &&& v.field("images"@) is None ==> images@.len() == 0
            &&& v.field("images"@) matches Some(JsonV::Array(a)) ==> (forall|i: int|
                0 <= i < a.len() ==> (#[trigger] a[i]) is Text) ==> images@.len() == a.len()
                && forall|i: int|
                0 <= i < a.len() ==> (#[trigger] a[i]) == JsonV::Text(images@[i]@)
        },
{
    reveal_strlit("stop");
    reveal_strlit("send");
    reveal_strlit("reset");
    assert("stop"@.len() == 4);
    assert("send"@.len() == 4);
    assert("reset"@.len() == 5);
    assert("stop"@[1] == 't' && "send"@[1] == 'e');
    match c {
        Command::Send { text, images } => {
            assert(texts(images@).len() == images@.len());
            match v.field("images"@) {
                Some(JsonV::Array(a)) => {
                    if forall|i: int| 0 <= i < a.len() ==> (#[trigger] a[i]) is Text {
                        all_texts_are_taken(a);
                        assert forall|i: int| 0 <= i < a.len() implies (#[trigger] a[i])
                            == JsonV::Text(images@[i]@) by {
                            assert(texts(images@)[i] == images@[i]@);
                        }
                    }
                },
                _ => {},
            }
        },
        _ => {},
    }
}

proof fn all_texts_are_taken(a: Seq<JsonV>)
    requires
        forall|i: int| 0 <= i < a.len() ==> (#[trigger] a[i]) is Text,
    ensures
        crate::engine::mcp::texts_in(a).len() == a.len(),
        forall|i: int|
            0 <= i < a.len() ==> (#[trigger] a[i]) == JsonV::Text(crate::engine::mcp::texts_in(a)[i]),
    decreases a.len(),
{
    if a.len() > 0 {
        let d = a.drop_last();
        assert forall|i: int| 0 <= i < d.len() implies (#[trigger] d[i]) is Text by {
            assert(d[i] == a[i]);
        }
        all_texts_are_taken(d);
        assert(a[a.len() - 1] is Text);
        assert forall|i: int| 0 <= i < a.len() implies (#[trigger] a[i]) == JsonV::Text(
            crate::engine::mcp::texts_in(a)[i],
        ) by {
            if i < d.len() {
                assert(d[i] == a[i]);
            }
        }
    }
}

/// A pane shows the folder of the chat, where that is one and is there; otherwise it says why not.
pub proof fn a_pane_shows_the_chats_folder(
    r: Result<String, String>,
    workspace: Seq<char>,
    absolute: bool,
    exists: bool,
)
    requires
        pane_folder(r, workspace, absolute, exists),
    ensures
        !blank(workspace) && absolute && exists ==> (r matches Ok(p) && p@ == trim_of(workspace)),
        blank(workspace) || !absolute || !exists ==> r is Err,
        !blank(workspace) && absolute && !exists ==> (r matches Err(e) && within(
            trim_of(workspace),
            e@,
        )),
{
    let a = "project folder does not exist: "@;
    between(a, trim_of(workspace), Seq::empty(), a + trim_of(workspace));
}

/// A folder is of use where it is named, absolute, and there; and an attachment is looked for where
/// its path says.
pub proof fn a_path_says_where(path: Seq<char>, absolute: bool, exists: bool, joined: Seq<char>)
    ensures
        usable(path, absolute, exists) <==> !blank(path) && absolute && exists,
        absolute ==> attachment_place(path, absolute, joined) == path,
        !absolute ==> attachment_place(path, absolute, joined) == joined,
{
}

/// A chat runs in its own folder and on its own model, where it has them; everything else is as it is
/// set for all.
pub proof fn a_chat_runs_on_its_own_terms(
    c: ConfigV,
    workspace: Seq<char>,
    model: Seq<char>,
    provider: Seq<char>,
)
    ensures
        ({
            let r = run_settings(c, workspace, model, provider);
            &&& workspace.len() > 0 ==> r.workspace == workspace
            &&& workspace.len() == 0 ==> r.workspace == c.workspace
            &&& model.len() > 0 ==> r.model == model
            &&& model.len() == 0 ==> r == (ConfigV { workspace: r.workspace, ..c })
            &&& r.temperature == c.temperature
            &&& r.system == c.system
            &&& r.yolo == c.yolo
            &&& r.context_window == c.context_window
            &&& r.providers == c.providers
            &&& r.task_worktrees == c.task_worktrees
            &&& r.disabled_plugins == c.disabled_plugins
            &&& model.len() > 0 && (exists|i: int|
                0 <= i < c.providers.len() && (#[trigger] c.providers[i]).id == provider
                    && c.providers[i].enabled && c.providers[i].models.contains(model)
                    && !c.providers[i].disabled_models.contains(model)) ==> r.provider_id == provider
        }),
{
    let d = ConfigV {
        workspace: if workspace.len() > 0 {
            workspace
        } else {
            c.workspace
        },
        ..c
    };
    if model.len() > 0 {
        choosing_a_model_moves_the_connection(d, model, provider);
    }
}

} // verus!
