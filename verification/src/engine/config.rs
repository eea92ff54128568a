//! The settings: defaults, the stored file and the environment, in that order.

use vstd::prelude::*;

use crate::text::{
    copy_opt, copy_texts, lower_of, one_of, opt_str, opt_text, same, texts, to_ascii_lowercase,
    trim, trim_of,
};

verus! {

/// A number kept as the bits of an IEEE 754 double and as JSON writes it.
#[derive(Debug)]
pub struct Temperature {
    pub bits: u64,
    pub text: String,
}

/// What is known of a model of a provider: what the provider said of it, or the user has set.
#[derive(Debug)]
pub struct ModelMeta {
    pub id: String,
    /// The context window of the model; that of the provider where it is unset.
    pub context_window: Option<u64>,
    /// Whether the model takes a reasoning level.
    pub reasoning: Option<bool>,
    /// The levels that it takes, where they are known.
    pub reasoning_efforts: Vec<String>,
    /// The level that the user has chosen.
    pub reasoning_effort: Option<String>,
}

/// A saved provider; the active connection is in the flat fields of [`Config`].
#[derive(Debug)]
pub struct ProviderItem {
    pub id: String,
    pub name: String,
    pub base_url: String,
    pub api_key: String,
    pub models: Vec<String>,
    /// The context window of this provider's models; the global one where it is unset.
    pub context_window: Option<u64>,
    /// Whether its models are on offer.
    pub enabled: bool,
    /// The models that are not on offer all the same.
    pub disabled_models: Vec<String>,
    /// What is known of single models.
    pub model_meta: Vec<ModelMeta>,
}

/// The settings of the engine.
#[derive(Debug)]
pub struct Config {
    pub base_url: String,
    pub api_key: String,
    pub model: String,
    pub temperature: Temperature,
    pub system: String,
    pub workspace: String,
    /// Approve risky tools without asking.
    pub yolo: bool,
    pub models: Vec<String>,
    /// Usable context window of the active model, in tokens.
    pub context_window: u64,
    pub providers: Vec<ProviderItem>,
    /// The saved provider that serves the model; empty where none is known.
    pub provider_id: String,
    /// Whether a new chat in a repository gets a worktree of its own.
    pub task_worktrees: bool,
    /// The plugins that the user has switched off.
    pub disabled_plugins: Vec<String>,
}

/// What the environment sets.
#[derive(Debug)]
pub struct Overrides {
    /// `E_API_KEY`
    pub api_key: Option<String>,
    /// `E_BASE_URL`
    pub base_url: Option<String>,
    /// `E_MODEL`
    pub model: Option<String>,
    /// `E_WORKSPACE`
    pub workspace: Option<String>,
    /// `E_YOLO`
    pub yolo: Option<String>,
}

pub struct ModelMetaV {
    pub id: Seq<char>,
    pub context_window: Option<u64>,
    pub reasoning: Option<bool>,
    pub reasoning_efforts: Seq<Seq<char>>,
    pub reasoning_effort: Option<Seq<char>>,
}

impl View for ModelMeta {
    type V = ModelMetaV;

    open spec fn view(&self) -> ModelMetaV {
        ModelMetaV {
            id: self.id@,
            context_window: self.context_window,
            reasoning: self.reasoning,
            reasoning_efforts: texts(self.reasoning_efforts@),
            reasoning_effort: opt_text(self.reasoning_effort),
        }
    }
}

pub open spec fn metas(v: Seq<ModelMeta>) -> Seq<ModelMetaV> {
    Seq::new(v.len(), |i: int| v[i]@)
}

impl Clone for ModelMeta {
    fn clone(&self) -> (r: ModelMeta)
        ensures
            r@ == self@,
    {
        ModelMeta {
            id: self.id.clone(),
            context_window: self.context_window,
            reasoning: self.reasoning,
            reasoning_efforts: copy_texts(&self.reasoning_efforts),
            reasoning_effort: copy_opt(&self.reasoning_effort),
        }
    }
}

/// A copy of what is known of models.
pub fn copy_metas(list: &Vec<ModelMeta>) -> (r: Vec<ModelMeta>)
    ensures
        metas(r@) == metas(list@),
{
    let mut r: Vec<ModelMeta> = Vec::new();
    let mut i: usize = 0;
    while i < list.len()
        invariant
            i <= list.len(),
            r@.len() == i,
            forall|j: int| 0 <= j < i ==> (#[trigger] r@[j])@ == list@[j]@,
        decreases list.len() - i,
    {
        r.push(list[i].clone());
        i += 1;
    }
    assert(metas(r@) =~= metas(list@));
    r
}

/// Where what is known of a model stands.
pub open spec fn meta_at(ms: Seq<ModelMetaV>, id: Seq<char>) -> Option<int>
    decreases ms.len(),
{
    if ms.len() == 0 {
        None
    } else {
        match meta_at(ms.drop_last(), id) {
            Some(i) => Some(i),
            None => if ms.last().id == id {
                Some(ms.len() - 1)
            } else {
                None
            },
        }
    }
}

/// What is known of a model.
pub open spec fn meta_of(ms: Seq<ModelMetaV>, id: Seq<char>) -> Option<ModelMetaV> {
    match meta_at(ms, id) {
        Some(i) => Some(ms[i]),
        None => None,
    }
}

pub proof fn meta_is_there(ms: Seq<ModelMetaV>, id: Seq<char>)
    ensures
        match meta_at(ms, id) {
            Some(i) => 0 <= i < ms.len() && ms[i].id == id && forall|j: int|
                0 <= j < i ==> (#[trigger] ms[j]).id != id,
            None => forall|j: int| 0 <= j < ms.len() ==> (#[trigger] ms[j]).id != id,
        },
    decreases ms.len(),
{
    if ms.len() > 0 {
        let d = ms.drop_last();
        meta_is_there(d, id);
        assert forall|j: int| 0 <= j < d.len() implies d[j] == ms[j] by {}
    }
}

/// Where what is known of a model stands.
pub fn find_meta(list: &Vec<ModelMeta>, id: &str) -> (r: Option<usize>)
    ensures
        match r {
            Some(i) => i < list@.len() && meta_at(metas(list@), id@) == Some(i as int),
            None => meta_at(metas(list@), id@) is None,
        },
{
    let ghost v = metas(list@);
    let mut found: Option<usize> = None;
    let mut i: usize = 0;
    assert(v.take(0) =~= Seq::empty());
    while i < list.len()
        invariant
            i <= list.len(),
            v == metas(list@),
            match found {
                Some(k) => k < i && meta_at(v.take(i as int), id@) == Some(k as int),
                None => meta_at(v.take(i as int), id@) is None,
            },
        decreases list.len() - i,
    {
        assert(v.take(i + 1).drop_last() =~= v.take(i as int));
        assert(v.take(i + 1).last() == list@[i as int]@);
        if found.is_none() && same(list[i].id.as_str(), id) {
            found = Some(i);
        }
        i += 1;
    }
    assert(v.take(v.len() as int) =~= v);
    found
}

pub struct ProviderV {
    pub id: Seq<char>,
    pub name: Seq<char>,
    pub base_url: Seq<char>,
    pub api_key: Seq<char>,
    pub models: Seq<Seq<char>>,
    pub context_window: Option<u64>,
    pub enabled: bool,
    pub disabled_models: Seq<Seq<char>>,
    pub model_meta: Seq<ModelMetaV>,
}

pub struct ConfigV {
    pub base_url: Seq<char>,
    pub api_key: Seq<char>,
    pub model: Seq<char>,
    pub temperature: (u64, Seq<char>),
    pub system: Seq<char>,
    pub workspace: Seq<char>,
    pub yolo: bool,
    pub models: Seq<Seq<char>>,
    pub context_window: u64,
    pub providers: Seq<ProviderV>,
    pub provider_id: Seq<char>,
    pub task_worktrees: bool,
    pub disabled_plugins: Seq<Seq<char>>,
}

impl View for ProviderItem {
    type V = ProviderV;

    open spec fn view(&self) -> ProviderV {
        ProviderV {
            id: self.id@,
            name: self.name@,
            base_url: self.base_url@,
            api_key: self.api_key@,
            models: texts(self.models@),
            context_window: self.context_window,
            enabled: self.enabled,
            disabled_models: texts(self.disabled_models@),
            model_meta: metas(self.model_meta@),
        }
    }
}

pub open spec fn providers_view(v: Seq<ProviderItem>) -> Seq<ProviderV> {
    Seq::new(v.len(), |i: int| v[i]@)
}

impl View for Config {
    type V = ConfigV;

    open spec fn view(&self) -> ConfigV {
        ConfigV {
            base_url: self.base_url@,
            api_key: self.api_key@,
            model: self.model@,
            temperature: (self.temperature.bits, self.temperature.text@),
            system: self.system@,
            workspace: self.workspace@,
            yolo: self.yolo,
            models: texts(self.models@),
            context_window: self.context_window,
            providers: providers_view(self.providers@),
            provider_id: self.provider_id@,
            task_worktrees: self.task_worktrees,
            disabled_plugins: texts(self.disabled_plugins@),
        }
    }
}

impl Clone for ProviderItem {
    fn clone(&self) -> (r: ProviderItem)
        ensures
            r@ == self@,
    {
        ProviderItem {
            id: self.id.clone(),
            name: self.name.clone(),
            base_url: self.base_url.clone(),
            api_key: self.api_key.clone(),
            models: copy_texts(&self.models),
            context_window: self.context_window,
            enabled: self.enabled,
            disabled_models: copy_texts(&self.disabled_models),
            model_meta: copy_metas(&self.model_meta),
        }
    }
}

impl Clone for Config {
    fn clone(&self) -> (r: Config)
        ensures
            r@ == self@,
    {
        let mut providers: Vec<ProviderItem> = Vec::new();
        let mut i: usize = 0;
        while i < self.providers.len()
            invariant
                i <= self.providers.len(),
                providers@.len() == i,
                forall|k: int| 0 <= k < i ==> (#[trigger] providers@[k])@ == self.providers@[k]@,
            decreases self.providers.len() - i,
        {
            providers.push(self.providers[i].clone());
            i += 1;
        }
        assert(providers_view(providers@) =~= providers_view(self.providers@));
        Config {
            base_url: self.base_url.clone(),
            api_key: self.api_key.clone(),
            model: self.model.clone(),
            temperature: Temperature {
                bits: self.temperature.bits,
                text: self.temperature.text.clone(),
            },
            system: self.system.clone(),
            workspace: self.workspace.clone(),
            yolo: self.yolo,
            models: copy_texts(&self.models),
            context_window: self.context_window,
            providers,
            provider_id: self.provider_id.clone(),
            task_worktrees: self.task_worktrees,
            disabled_plugins: copy_texts(&self.disabled_plugins),
        }
    }
}

/// The share of the context window at which a chat is compacted, in hundredths. It is high: the
/// point is not to overflow, not to keep the window small.
pub const COMPACT_AT: u64 = 85;

/// The window to assume where nothing says.
pub fn default_context_window() -> (r: u64)
    ensures
        r == 1_000_000,
{
    1_000_000
}

/// Whether a double with these bits lies between 0 and 2, both included. The bits of the
/// numbers from 0 on rise with the numbers, the first pattern above is that of 2, and the
/// other zero is the one below it.
pub open spec fn sampling_range(bits: u64) -> bool {
    bits <= 0x4000_0000_0000_0000 || bits == 0x8000_0000_0000_0000
}

// ---- defaults ---------------------------------------------------------------------------------

pub const DEFAULT_SYSTEM: &'static str = "You are e, a fast, capable coding agent running in a local harness with a workspace and tools: shell (run commands), read_file, write_file, list_dir.\nTool use policy: use a tool ONLY when it genuinely helps (inspect/read files, run or verify commands, modify the workspace, or when the user asks you to act). For conversational or directly-answerable requests, answer directly yourself and NEVER make a tool call.";

/// The settings of a new installation, which has no provider.
pub open spec fn defaults_view(cwd: Seq<char>) -> ConfigV {
    ConfigV {
        base_url: Seq::empty(),
        api_key: Seq::empty(),
        model: Seq::empty(),
        temperature: (0x3FE6_6666_6666_6666, "0.7"@),
        system: DEFAULT_SYSTEM@,
        workspace: cwd,
        yolo: false,
        models: Seq::empty(),
        context_window: 1_000_000,
        providers: Seq::empty(),
        provider_id: Seq::empty(),
        task_worktrees: false,
        disabled_plugins: Seq::empty(),
    }
}

fn defaults(cwd: &str) -> (r: Config)
    ensures
        r@ == defaults_view(cwd@),
{
    let r = Config {
        base_url: String::new(),
        api_key: String::new(),
        model: String::new(),
        temperature: Temperature { bits: 0x3FE6_6666_6666_6666, text: "0.7".to_string() },
        system: DEFAULT_SYSTEM.to_string(),
        workspace: cwd.to_string(),
        yolo: false,
        models: Vec::new(),
        context_window: default_context_window(),
        providers: Vec::new(),
        provider_id: String::new(),
        task_worktrees: false,
        disabled_plugins: Vec::new(),
    };
    assert(r@.base_url =~= Seq::empty());
    assert(r@.models =~= Seq::empty());
    assert(r@.providers =~= Seq::empty());
    assert(r@.disabled_plugins =~= Seq::empty());
    r
}

// ---- the stored file ----------------------------------------------------------------------------

/// `new` where there is something in it, `old` otherwise.
pub open spec fn unless_empty<A>(new: Seq<A>, old: Seq<A>) -> Seq<A> {
    if new.len() > 0 {
        new
    } else {
        old
    }
}

/// The settings with a stored file laid over them. What is empty in the file, or out of range,
/// changes nothing; flags and the plugins that are off are always taken, since a flag that is off
/// cannot be told from one that is not there.
pub open spec fn merged(base: ConfigV, c: ConfigV) -> ConfigV {
    ConfigV {
        base_url: unless_empty(c.base_url, base.base_url),
        api_key: unless_empty(c.api_key, base.api_key),
        model: unless_empty(c.model, base.model),
        temperature: if sampling_range(c.temperature.0) {
            c.temperature
        } else {
            base.temperature
        },
        system: unless_empty(c.system, base.system),
        workspace: unless_empty(c.workspace, base.workspace),
        yolo: c.yolo,
        models: unless_empty(c.models, base.models),
        context_window: if c.context_window > 0 {
            c.context_window
        } else {
            base.context_window
        },
        providers: unless_empty(c.providers, base.providers),
        provider_id: unless_empty(c.provider_id, base.provider_id),
        task_worktrees: c.task_worktrees,
        disabled_plugins: c.disabled_plugins,
    }
}

fn pick(new: String, old: String) -> (r: String)
    ensures
        r@ == unless_empty(new@, old@),
{
    if new.as_str().unicode_len() > 0 {
        new
    } else {
        old
    }
}

/// Lays the stored settings `c` over `base`.
pub fn merge(base: Config, c: Config) -> (r: Config)
    ensures
        r@ == merged(base@, c@),
{
    assert(texts(c.models@).len() == c.models@.len());
    assert(providers_view(c.providers@).len() == c.providers@.len());
    let bits: u64 = c.temperature.bits;
    Config {
        base_url: pick(c.base_url, base.base_url),
        api_key: pick(c.api_key, base.api_key),
        model: pick(c.model, base.model),
        temperature: if bits <= 0x4000_0000_0000_0000 || bits == 0x8000_0000_0000_0000 {
            c.temperature
        } else {
            base.temperature
        },
        system: pick(c.system, base.system),
        workspace: pick(c.workspace, base.workspace),
        yolo: c.yolo,
        models: if c.models.len() > 0 {
            c.models
        } else {
            base.models
        },
        context_window: if c.context_window > 0 {
            c.context_window
        } else {
            base.context_window
        },
        providers: if c.providers.len() > 0 {
            c.providers
        } else {
            base.providers
        },
        provider_id: pick(c.provider_id, base.provider_id),
        task_worktrees: c.task_worktrees,
        disabled_plugins: c.disabled_plugins,
    }
}

// ---- the environment ------------------------------------------------------------------------------

/// A flag as people write it; anything else is no flag.
pub open spec fn bool_in(v: Seq<char>) -> Option<bool> {
    let t = lower_of(trim_of(v));
    if t == "1"@ || t == "true"@ || t == "yes"@ || t == "on"@ {
        Some(true)
    } else if t == "0"@ || t == "false"@ || t == "no"@ || t == "off"@ {
        Some(false)
    } else {
        None
    }
}

/// Reads a flag leniently. An unrecognised value leaves the setting alone rather than turning
/// it off.
pub fn parse_bool(v: &str) -> (r: Option<bool>)
    ensures
        r == bool_in(v@),
{
    let t = trim(v);
    let low = to_ascii_lowercase(t.as_str());
    let s = low.as_str();
    if same(s, "1") || same(s, "true") || same(s, "yes") || same(s, "on") {
        Some(true)
    } else if same(s, "0") || same(s, "false") || same(s, "no") || same(s, "off") {
        Some(false)
    } else {
        None
    }
}

pub open spec fn override_with(o: Option<String>, old: Seq<char>) -> Seq<char> {
    match o {
        Some(s) => unless_empty(s@, old),
        None => old,
    }
}

/// The settings with what the environment sets.
pub open spec fn overridden(c: ConfigV, env: Overrides) -> ConfigV {
    ConfigV {
        api_key: override_with(env.api_key, c.api_key),
        base_url: override_with(env.base_url, c.base_url),
        model: override_with(env.model, c.model),
        workspace: override_with(env.workspace, c.workspace),
        yolo: match env.yolo {
            Some(v) => match bool_in(v@) {
                Some(b) => b,
                None => c.yolo,
            },
            None => c.yolo,
        },
        ..c
    }
}

/// The settings with the first provider completed from the active connection.
pub open spec fn first_provider_completed(c: ConfigV) -> ConfigV {
    if c.providers.len() == 0 {
        c
    } else {
        let p = c.providers[0];
        ConfigV {
            providers: c.providers.update(
                0,
                ProviderV {
                    base_url: unless_empty(p.base_url, c.base_url),
                    api_key: unless_empty(p.api_key, c.api_key),
                    models: unless_empty(p.models, c.models),
                    ..p
                },
            ),
            ..c
        }
    }
}

/// The settings that a run starts with.
pub open spec fn configured(cwd: Seq<char>, stored: Option<Config>, env: Overrides) -> ConfigV {
    let base = match stored {
        Some(c) => merged(defaults_view(cwd), c@),
        None => defaults_view(cwd),
    };
    first_provider_completed(overridden(base, env))
}

fn pick_override(o: Option<String>, old: String) -> (r: String)
    ensures
        r@ == override_with(o, old@),
{
    match o {
        Some(s) => pick(s, old),
        None => old,
    }
}

impl Config {
    /// The settings: the defaults, with what was stored laid over them, with what the
    /// environment sets. The first provider is completed from the active connection, so that
    /// its key is there for whoever lists its models.
    pub fn from_env(cwd: &str, stored: Option<Config>, env: Overrides) -> (r: Config)
        ensures
            r@ == configured(cwd@, stored, env),
    {
        let base: Config = match stored {
            Some(c) => merge(defaults(cwd), c),
            None => defaults(cwd),
        };
        let yolo: bool = match env.yolo {
            Some(v) => match parse_bool(v.as_str()) {
                Some(b) => b,
                None => base.yolo,
            },
            None => base.yolo,
        };
        let mut c = Config {
            base_url: pick_override(env.base_url, base.base_url),
            api_key: pick_override(env.api_key, base.api_key),
            model: pick_override(env.model, base.model),
            temperature: base.temperature,
            system: base.system,
            workspace: pick_override(env.workspace, base.workspace),
            yolo,
            models: base.models,
            context_window: base.context_window,
            providers: base.providers,
            provider_id: base.provider_id,
            task_worktrees: base.task_worktrees,
            disabled_plugins: base.disabled_plugins,
        };
        let ghost before = c@;
        assert(providers_view(c.providers@).len() == c.providers@.len());
        if c.providers.len() > 0 {
            let p = c.providers[0].clone();
            assert(texts(p.models@).len() == p.models@.len());
            let models: Vec<String> = if p.models.len() > 0 {
                p.models
            } else {
                copy_texts(&c.models)
            };
            let first = ProviderItem {
                id: p.id,
                name: p.name,
                base_url: pick(p.base_url, c.base_url.clone()),
                api_key: pick(p.api_key, c.api_key.clone()),
                models,
                context_window: p.context_window,
                enabled: p.enabled,
                disabled_models: p.disabled_models,
                model_meta: p.model_meta,
            };
            assert(first@ == first_provider_completed(before).providers[0]);
            c.providers.set(0, first);
            assert(providers_view(c.providers@) =~= first_provider_completed(before).providers);
        }
        c
    }

    fn active(&self) -> (r: Option<usize>)
        ensures
            match r {
                Some(i) => i < self.providers@.len() && active_provider(self@) == Some(
                    self.providers@[i as int]@,
                ),
                None => active_provider(self@) is None,
            },
    {
        match position_at(
            &self.providers,
            self.base_url.as_str(),
            Some(self.provider_id.as_str()),
        ) {
            Some(i) => Some(i),
            None => position_at(&self.providers, self.base_url.as_str(), None),
        }
    }

    /// The window to budget against: that of the selected model, or else of the active provider,
    /// or else the global setting; and the default where that is 0.
    pub fn active_context_window(&self) -> (r: u64)
        ensures
            r == active_window(self@),
    {
        let own: Option<u64> = match self.active() {
            Some(i) => {
                let p = &self.providers[i];
                assert(metas(p.model_meta@) == p@.model_meta);
                match find_meta(&p.model_meta, self.model.as_str()) {
                    Some(k) => {
                        assert(p@.model_meta[k as int] == p.model_meta@[k as int]@);
                        match p.model_meta[k].context_window {
                            Some(w) => Some(w),
                            None => p.context_window,
                        }
                    },
                    None => p.context_window,
                }
            },
            None => None,
        };
        let win: u64 = match own {
            Some(w) => w,
            None => self.context_window,
        };
        if win == 0 {
            default_context_window()
        } else {
            win
        }
    }

    /// The reasoning level that was chosen for the selected model, if one was.
    pub fn active_reasoning_effort(&self) -> (r: Option<String>)
        ensures
            opt_text(r) == active_effort(self@),
    {
        match self.active() {
            Some(i) => {
                let p = &self.providers[i];
                assert(metas(p.model_meta@) == p@.model_meta);
                match find_meta(&p.model_meta, self.model.as_str()) {
                    Some(k) => {
                        assert(p@.model_meta[k as int] == p.model_meta@[k as int]@);
                        copy_opt(&p.model_meta[k].reasoning_effort)
                    },
                    None => None,
                }
            },
            None => None,
        }
    }
}

/// The first provider at `url`, and of those the one with an id, where one is asked for.
pub open spec fn provider_at(
    ps: Seq<ProviderV>,
    url: Seq<char>,
    id: Option<Seq<char>>,
) -> Option<ProviderV>
    decreases ps.len(),
{
    if ps.len() == 0 {
        None
    } else {
        match provider_at(ps.drop_last(), url, id) {
            Some(p) => Some(p),
            None => if ps.last().base_url == url && (id matches Some(i) ==> ps.last().id == i) {
                Some(ps.last())
            } else {
                None
            },
        }
    }
}

fn position_at(ps: &Vec<ProviderItem>, url: &str, id: Option<&str>) -> (r: Option<usize>)
    ensures
        match r {
            Some(i) => i < ps@.len() && provider_at(providers_view(ps@), url@, opt_str(id)) == Some(
                ps@[i as int]@,
            ),
            None => provider_at(providers_view(ps@), url@, opt_str(id)) is None,
        },
{
    let ghost v = providers_view(ps@);
    let mut found: Option<usize> = None;
    let mut i: usize = 0;
    while i < ps.len()
        invariant
            i <= ps.len(),
            v == providers_view(ps@),
            match found {
                Some(k) => k < i && provider_at(v.take(i as int), url@, opt_str(id)) == Some(
                    ps@[k as int]@,
                ),
                None => provider_at(v.take(i as int), url@, opt_str(id)) is None,
            },
        decreases ps.len() - i,
    {
        assert(v.take(i + 1).drop_last() =~= v.take(i as int));
        assert(v.take(i + 1).last() == ps@[i as int]@);
        let named: bool = match id {
            Some(n) => same(ps[i].id.as_str(), n),
            None => true,
        };
        if found.is_none() && same(ps[i].base_url.as_str(), url) && named {
            found = Some(i);
        }
        i += 1;
    }
    assert(v.take(v.len() as int) =~= v);
    found
}

/// The provider of the connection: the selected one where it is at that address, or else the first
/// that is.
pub open spec fn active_provider(c: ConfigV) -> Option<ProviderV> {
    match provider_at(c.providers, c.base_url, Some(c.provider_id)) {
        Some(p) => Some(p),
        None => provider_at(c.providers, c.base_url, None),
    }
}

/// The window of a model of a provider: its own, or else the provider's.
pub open spec fn window_in(p: ProviderV, model: Seq<char>) -> Option<u64> {
    match meta_of(p.model_meta, model) {
        Some(m) => match m.context_window {
            Some(w) => Some(w),
            None => p.context_window,
        },
        None => p.context_window,
    }
}

pub open spec fn active_window(c: ConfigV) -> u64 {
    let own = match active_provider(c) {
        Some(p) => window_in(p, c.model),
        None => None,
    };
    let w = match own {
        Some(w) => w,
        None => c.context_window,
    };
    if w == 0 {
        1_000_000
    } else {
        w
    }
}

/// The reasoning level that was chosen for the selected model.
pub open spec fn active_effort(c: ConfigV) -> Option<Seq<char>> {
    match active_provider(c) {
        Some(p) => match meta_of(p.model_meta, c.model) {
            Some(m) => m.reasoning_effort,
            None => None,
        },
        None => None,
    }
}

/// What is set for the selected model counts before what is set for its provider, and that before
/// what is set for all.
pub proof fn the_models_own_setting_counts(c: ConfigV, p: ProviderV, m: ModelMetaV)
    requires
        active_provider(c) == Some(p),
        meta_of(p.model_meta, c.model) == Some(m),
    ensures
        m.context_window matches Some(w) ==> w > 0 ==> active_window(c) == w,
        m.context_window is None ==> (p.context_window matches Some(w) ==> w > 0 ==> active_window(c)
            == w),
        active_effort(c) == m.reasoning_effort,
{
}

/// The environment wins over the file: what it sets to something is what a run starts with,
/// whatever was stored.
pub proof fn environment_wins(cwd: Seq<char>, stored: Option<Config>, env: Overrides, value: String)
    requires
        value@.len() > 0,
    ensures
        env.api_key == Some(value) ==> configured(cwd, stored, env).api_key == value@,
        env.base_url == Some(value) ==> configured(cwd, stored, env).base_url == value@,
        env.model == Some(value) ==> configured(cwd, stored, env).model == value@,
        env.workspace == Some(value) ==> configured(cwd, stored, env).workspace == value@,
{
}

/// The window that is budgeted against is never 0.
pub proof fn window_is_positive(c: ConfigV)
    ensures
        active_window(c) > 0,
{
}

// ---- what is stored -----------------------------------------------------------------------------

pub open spec fn keyless_provider(p: ProviderV) -> ProviderV {
    ProviderV { api_key: Seq::empty(), ..p }
}

/// The settings without the keys, which the operating system keeps.
pub open spec fn keyless(c: ConfigV) -> ConfigV {
    ConfigV {
        api_key: Seq::empty(),
        providers: Seq::new(c.providers.len(), |i: int| keyless_provider(c.providers[i])),
        ..c
    }
}

impl Config {
    /// The settings as they are stored: without the keys.
    pub fn save(&self) -> (r: Config)
        ensures
            r@ == keyless(self@),
    {
        let ghost ps = self@.providers;
        let mut c = self.clone();
        c.api_key = String::new();
        assert(c.api_key@ =~= Seq::empty());
        let mut i: usize = 0;
        while i < c.providers.len()
            invariant
                i <= c.providers.len(),
                c.providers@.len() == ps.len(),
                c@ == (ConfigV {
                    api_key: Seq::empty(),
                    providers: providers_view(c.providers@),
                    ..self@
                }),
                forall|k: int| 0 <= k < i ==> (#[trigger] c.providers@[k])@ == keyless_provider(ps[k]),
                forall|k: int| i <= k < ps.len() ==> (#[trigger] c.providers@[k])@ == ps[k],
            decreases c.providers.len() - i,
        {
            let mut p = c.providers[i].clone();
            p.api_key = String::new();
            assert(p.api_key@ =~= Seq::empty());
            assert(p@ == keyless_provider(ps[i as int]));
            c.providers.set(i, p);
            i += 1;
        }
        assert(c@.providers =~= keyless(self@).providers);
        c
    }
}

/// No key is ever stored with the settings.
pub proof fn no_key_is_stored(c: ConfigV)
    ensures
        keyless(c).api_key.len() == 0,
        forall|i: int|
            0 <= i < keyless(c).providers.len() ==> (#[trigger] keyless(c).providers[i]).api_key.len()
                == 0,
{
}

// ---- which provider serves a model --------------------------------------------------------------

/// Whether a provider offers a model: it has it, and neither of them is switched off.
pub open spec fn offers(p: ProviderV, model: Seq<char>) -> bool {
    p.enabled && p.models.contains(model) && !p.disabled_models.contains(model)
}

/// Whether a provider offers `model`, where one is asked for, and is `id`, where one is.
pub open spec fn fits(p: ProviderV, model: Option<Seq<char>>, id: Option<Seq<char>>) -> bool {
    &&& (model matches Some(m) ==> offers(p, m))
    &&& (id matches Some(i) ==> p.id == i)
}

/// The first provider that fits.
pub open spec fn first_fitting(
    ps: Seq<ProviderV>,
    model: Option<Seq<char>>,
    id: Option<Seq<char>>,
) -> Option<ProviderV>
    decreases ps.len(),
{
    if ps.len() == 0 {
        None
    } else {
        match first_fitting(ps.drop_last(), model, id) {
            Some(p) => Some(p),
            None => if fits(ps.last(), model, id) {
                Some(ps.last())
            } else {
                None
            },
        }
    }
}

/// The provider that serves `model`: `wanted` if it does, otherwise the first that does.
pub open spec fn server_of(
    ps: Seq<ProviderV>,
    model: Seq<char>,
    wanted: Seq<char>,
) -> Option<ProviderV> {
    match first_fitting(ps, Some(model), Some(wanted)) {
        Some(p) => Some(p),
        None => first_fitting(ps, Some(model), None),
    }
}

/// The provider that a chat on `model` talks to: the one that serves it, or where none says so
/// `wanted`, so that a chat does not end up with one that it never had.
pub open spec fn connection_of(
    ps: Seq<ProviderV>,
    model: Seq<char>,
    wanted: Seq<char>,
) -> Option<ProviderV> {
    match server_of(ps, model, wanted) {
        Some(p) => Some(p),
        None => first_fitting(ps, None, Some(wanted)),
    }
}

/// The settings with the connection of a provider.
pub open spec fn moved_to(c: ConfigV, p: ProviderV) -> ConfigV {
    ConfigV {
        base_url: p.base_url,
        api_key: p.api_key,
        models: p.models,
        provider_id: p.id,
        ..c
    }
}

/// The settings with the connection of whichever provider serves the model. Where none does, the
/// connection stays, so that it remains usable.
pub open spec fn connected(c: ConfigV) -> ConfigV {
    match server_of(c.providers, c.model, c.provider_id) {
        Some(p) => moved_to(c, p),
        None => c,
    }
}

/// The settings on another model. The address and the key move with it to its provider, unless it
/// is the provider that is active already, whose connection the environment may have changed.
pub open spec fn on_model(c: ConfigV, model: Seq<char>, wanted: Seq<char>) -> ConfigV {
    let there = ConfigV { model, ..c };
    match connection_of(c.providers, model, wanted) {
        Some(p) => if c.provider_id.len() > 0 && p.id == c.provider_id {
            there
        } else {
            moved_to(there, p)
        },
        None => there,
    }
}

fn position(ps: &Vec<ProviderItem>, model: Option<&str>, id: Option<&str>) -> (r: Option<usize>)
    ensures
        match r {
            Some(i) => i < ps@.len() && first_fitting(
                providers_view(ps@),
                opt_str(model),
                opt_str(id),
            ) == Some(ps@[i as int]@),
            None => first_fitting(providers_view(ps@), opt_str(model), opt_str(id)) is None,
        },
{
    let ghost v = providers_view(ps@);
    let mut found: Option<usize> = None;
    let mut i: usize = 0;
    while i < ps.len()
        invariant
            i <= ps.len(),
            v == providers_view(ps@),
            match found {
                Some(k) => k < i && first_fitting(v.take(i as int), opt_str(model), opt_str(id))
                    == Some(ps@[k as int]@),
                None => first_fitting(v.take(i as int), opt_str(model), opt_str(id)) is None,
            },
        decreases ps.len() - i,
    {
        assert(v.take(i + 1).drop_last() =~= v.take(i as int));
        assert(v.take(i + 1).last() == ps@[i as int]@);
        let serves: bool = match model {
            Some(m) => ps[i].enabled && one_of(m, &ps[i].models) && !one_of(
                m,
                &ps[i].disabled_models,
            ),
            None => true,
        };
        let named: bool = match id {
            Some(n) => same(ps[i].id.as_str(), n),
            None => true,
        };
        if found.is_none() && serves && named {
            found = Some(i);
        }
        i += 1;
    }
    assert(v.take(v.len() as int) =~= v);
    found
}

fn server(ps: &Vec<ProviderItem>, model: &str, wanted: &str) -> (r: Option<usize>)
    ensures
        match r {
            Some(i) => i < ps@.len() && server_of(providers_view(ps@), model@, wanted@) == Some(
                ps@[i as int]@,
            ),
            None => server_of(providers_view(ps@), model@, wanted@) is None,
        },
{
    match position(ps, Some(model), Some(wanted)) {
        Some(i) => Some(i),
        None => position(ps, Some(model), None),
    }
}

/// A model, with the provider that it comes from.
#[derive(Debug)]
pub struct ModelChoice {
    pub model: String,
    pub provider: String,
    pub provider_name: String,
}

pub struct ModelChoiceV {
    pub model: Seq<char>,
    pub provider: Seq<char>,
    pub provider_name: Seq<char>,
}

impl View for ModelChoice {
    type V = ModelChoiceV;

    open spec fn view(&self) -> ModelChoiceV {
        ModelChoiceV {
            model: self.model@,
            provider: self.provider@,
            provider_name: self.provider_name@,
        }
    }
}

pub open spec fn choices(v: Seq<ModelChoice>) -> Seq<ModelChoiceV> {
    Seq::new(v.len(), |i: int| v[i]@)
}

pub open spec fn choice(p: ProviderV, model: Seq<char>) -> ModelChoiceV {
    ModelChoiceV { model, provider: p.id, provider_name: p.name }
}

/// The models among `models` that a provider offers.
pub open spec fn offered(p: ProviderV, models: Seq<Seq<char>>) -> Seq<ModelChoiceV>
    decreases models.len(),
{
    if models.len() == 0 {
        Seq::empty()
    } else if offers(p, models.last()) {
        offered(p, models.drop_last()).push(choice(p, models.last()))
    } else {
        offered(p, models.drop_last())
    }
}

/// The models that all the providers offer, one provider after the other.
pub open spec fn catalogue(ps: Seq<ProviderV>) -> Seq<ModelChoiceV>
    decreases ps.len(),
{
    if ps.len() == 0 {
        Seq::empty()
    } else {
        catalogue(ps.drop_last()) + offered(ps.last(), ps.last().models)
    }
}

impl Config {
    /// The id of the provider that serves `model`, `wanted` before any other; empty where none
    /// does.
    pub fn resolve_provider_id(&self, model: &str, wanted: &str) -> (r: String)
        ensures
            r@ == (match server_of(self@.providers, model@, wanted@) {
                Some(p) => p.id,
                None => Seq::empty(),
            }),
    {
        match server(&self.providers, model, wanted) {
            Some(i) => self.providers[i].id.clone(),
            None => String::new(),
        }
    }

    /// The key of a provider.
    pub fn key_of(&self, id: &str) -> (r: Option<String>)
        ensures
            opt_text(r) == (match first_fitting(self@.providers, None, Some(id@)) {
                Some(p) => Some(p.api_key),
                None => None,
            }),
    {
        match position(&self.providers, None, Some(id)) {
            Some(i) => Some(self.providers[i].api_key.clone()),
            None => None,
        }
    }

    fn move_to(self, i: usize) -> (r: Config)
        requires
            i < self.providers@.len(),
        ensures
            r@ == moved_to(self@, self@.providers[i as int]),
    {
        let mut c = self;
        let p = c.providers[i].clone();
        c.base_url = p.base_url;
        c.api_key = p.api_key;
        c.models = p.models;
        c.provider_id = p.id;
        c
    }

    /// Derives the connection from the model.
    pub fn normalize(self) -> (r: Config)
        ensures
            r@ == connected(self@),
    {
        match server(&self.providers, self.model.as_str(), self.provider_id.as_str()) {
            Some(i) => self.move_to(i),
            None => self,
        }
    }

    /// Puts the settings on another model, and on the provider that it comes from.
    pub fn use_model(self, model: &str, wanted: &str) -> (r: Config)
        ensures
            r@ == on_model(self@, model@, wanted@),
    {
        let mut c = self;
        c.model = model.to_string();
        let at: Option<usize> = match server(&c.providers, model, wanted) {
            Some(i) => Some(i),
            None => position(&c.providers, None, Some(wanted)),
        };
        match at {
            Some(i) => {
                if c.provider_id.as_str().unicode_len() > 0 && same(
                    c.providers[i].id.as_str(),
                    c.provider_id.as_str(),
                ) {
                    c
                } else {
                    c.move_to(i)
                }
            },
            None => c,
        }
    }

    /// The window to budget against on a model.
    pub fn context_window_for(&self, model: &str, wanted: &str) -> (r: u64)
        ensures
            r == active_window(on_model(self@, model@, wanted@)),
    {
        self.clone().use_model(model, wanted).active_context_window()
    }

    /// Every model on offer, with the provider that it comes from.
    pub fn model_catalog(&self) -> (r: Vec<ModelChoice>)
        ensures
            choices(r@) == catalogue(self@.providers),
    {
        let ghost ps = self@.providers;
        let mut out: Vec<ModelChoice> = Vec::new();
        let mut i: usize = 0;
        assert(choices(out@) =~= catalogue(ps.take(0)));
        while i < self.providers.len()
            invariant
                i <= self.providers.len(),
                ps == providers_view(self.providers@),
                choices(out@) == catalogue(ps.take(i as int)),
            decreases self.providers.len() - i,
        {
            assert(ps.take(i + 1).drop_last() =~= ps.take(i as int));
            let p = &self.providers[i];
            let ghost before = choices(out@);
            let ghost ms = p@.models;
            let mut k: usize = 0;
            assert(before + offered(p@, ms.take(0)) =~= before);
            while k < p.models.len()
                invariant
                    k <= p.models.len(),
                    ms == texts(p.models@),
                    ms == p@.models,
                    choices(out@) == before + offered(p@, ms.take(k as int)),
                decreases p.models.len() - k,
            {
                assert(ms.take(k + 1).drop_last() =~= ms.take(k as int));
                assert(ms.contains(ms[k as int]));
                if p.enabled && !one_of(p.models[k].as_str(), &p.disabled_models) {
                    let ghost o = choices(out@);
                    out.push(
                        ModelChoice {
                            model: p.models[k].clone(),
                            provider: p.id.clone(),
                            provider_name: p.name.clone(),
                        },
                    );
                    assert(choices(out@) =~= o.push(choice(p@, ms[k as int])));
                    assert(choices(out@) =~= before + offered(p@, ms.take(k + 1)));
                }
                k += 1;
            }
            assert(ms.take(ms.len() as int) =~= ms);
            i += 1;
        }
        assert(ps.take(ps.len() as int) =~= ps);
        out
    }
}

proof fn first_fitting_fits(ps: Seq<ProviderV>, model: Option<Seq<char>>, id: Option<Seq<char>>)
    ensures
        match first_fitting(ps, model, id) {
            Some(p) => ps.contains(p) && fits(p, model, id),
            None => forall|i: int| 0 <= i < ps.len() ==> !fits(#[trigger] ps[i], model, id),
        },
    decreases ps.len(),
{
    if ps.len() > 0 {
        first_fitting_fits(ps.drop_last(), model, id);
        match first_fitting(ps.drop_last(), model, id) {
            Some(p) => {
                let i = choose|i: int| 0 <= i < ps.drop_last().len() && ps.drop_last()[i] == p;
                assert(ps[i] == p);
            },
            None => {
                assert forall|i: int| 0 <= i < ps.len() && !fits(ps.last(), model, id) implies !fits(
                    #[trigger] ps[i],
                    model,
                    id,
                ) by {
                    if i < ps.len() - 1 {
                        assert(ps.drop_last()[i] == ps[i]);
                    }
                }
                assert(ps[ps.len() - 1] == ps.last());
            },
        }
    }
}

/// Selecting a model selects a provider that offers it, if there is one, and the one that was
/// asked for if that one offers it.
pub proof fn a_model_comes_with_its_provider(ps: Seq<ProviderV>, model: Seq<char>, wanted: Seq<char>)
    ensures
        match server_of(ps, model, wanted) {
            Some(p) => {
                &&& ps.contains(p)
                &&& offers(p, model)
                &&& p.id == wanted || forall|i: int|
                    0 <= i < ps.len() ==> !((#[trigger] ps[i]).id == wanted && offers(ps[i], model))
            },
            None => forall|i: int| 0 <= i < ps.len() ==> !offers(#[trigger] ps[i], model),
        },
{
    first_fitting_fits(ps, Some(model), Some(wanted));
    first_fitting_fits(ps, Some(model), None);
    match first_fitting(ps, Some(model), Some(wanted)) {
        Some(p) => {},
        None => {
            assert forall|i: int| 0 <= i < ps.len() implies !((#[trigger] ps[i]).id == wanted
                && offers(ps[i], model)) by {
                assert(!fits(ps[i], Some(model), Some(wanted)));
            }
            if first_fitting(ps, Some(model), None) is None {
                assert forall|i: int| 0 <= i < ps.len() implies !offers(#[trigger] ps[i], model) by {
                    assert(!fits(ps[i], Some(model), None));
                }
            }
        },
    }
}

/// A key is never sent to another provider than its own: when the address changes, the key is
/// that of the provider at the new one.
pub proof fn a_key_moves_with_its_address(c: ConfigV, model: Seq<char>, wanted: Seq<char>)
    ensures
        ({
            let r = on_model(c, model, wanted);
            ||| (r.base_url == c.base_url && r.api_key == c.api_key)
            ||| exists|p: ProviderV|
                c.providers.contains(p) && p.base_url == r.base_url && p.api_key == r.api_key
                    && p.id == r.provider_id
        }),
{
    first_fitting_fits(c.providers, Some(model), Some(wanted));
    first_fitting_fits(c.providers, Some(model), None);
    first_fitting_fits(c.providers, None, Some(wanted));
    match connection_of(c.providers, model, wanted) {
        Some(p) => {
            assert(c.providers.contains(p));
        },
        None => {},
    }
}

// ---- what the settings are for -------------------------------------------------------------------------

/// What was stored counts, field by field: a text or a list where there is something in it, a window
/// where it is not 0, a temperature where it can be sampled at, and a flag always.
pub proof fn what_was_stored_counts(base: ConfigV, c: ConfigV)
    ensures
        c.base_url.len() > 0 ==> merged(base, c).base_url == c.base_url,
        c.base_url.len() == 0 ==> merged(base, c).base_url == base.base_url,
        c.api_key.len() > 0 ==> merged(base, c).api_key == c.api_key,
        c.api_key.len() == 0 ==> merged(base, c).api_key == base.api_key,
        c.model.len() > 0 ==> merged(base, c).model == c.model,
        c.model.len() == 0 ==> merged(base, c).model == base.model,
        c.system.len() > 0 ==> merged(base, c).system == c.system,
        c.system.len() == 0 ==> merged(base, c).system == base.system,
        c.workspace.len() > 0 ==> merged(base, c).workspace == c.workspace,
        c.workspace.len() == 0 ==> merged(base, c).workspace == base.workspace,
        c.provider_id.len() > 0 ==> merged(base, c).provider_id == c.provider_id,
        c.provider_id.len() == 0 ==> merged(base, c).provider_id == base.provider_id,
        c.models.len() > 0 ==> merged(base, c).models == c.models,
        c.models.len() == 0 ==> merged(base, c).models == base.models,
        c.providers.len() > 0 ==> merged(base, c).providers == c.providers,
        c.providers.len() == 0 ==> merged(base, c).providers == base.providers,
        c.context_window > 0 ==> merged(base, c).context_window == c.context_window,
        c.context_window == 0 ==> merged(base, c).context_window == base.context_window,
        c.temperature.0 <= 0x4000_0000_0000_0000 || c.temperature.0 == 0x8000_0000_0000_0000
            ==> merged(base, c).temperature == c.temperature,
        c.temperature.0 > 0x4000_0000_0000_0000 && c.temperature.0 != 0x8000_0000_0000_0000
            ==> merged(base, c).temperature == base.temperature,
        merged(base, c).yolo == c.yolo,
        merged(base, c).task_worktrees == c.task_worktrees,
        merged(base, c).disabled_plugins == c.disabled_plugins,
{
}

/// The environment changes what it sets to something and nothing else.
pub proof fn the_environment_changes_what_it_sets(c: ConfigV, env: Overrides)
    ensures
        env.api_key is None ==> overridden(c, env).api_key == c.api_key,
        env.api_key matches Some(s) ==> s@.len() == 0 ==> overridden(c, env).api_key == c.api_key,
        env.api_key matches Some(s) ==> s@.len() > 0 ==> overridden(c, env).api_key == s@,
        env.base_url is None ==> overridden(c, env).base_url == c.base_url,
        env.base_url matches Some(s) ==> s@.len() == 0 ==> overridden(c, env).base_url == c.base_url,
        env.base_url matches Some(s) ==> s@.len() > 0 ==> overridden(c, env).base_url == s@,
        env.model is None ==> overridden(c, env).model == c.model,
        env.model matches Some(s) ==> s@.len() == 0 ==> overridden(c, env).model == c.model,
        env.model matches Some(s) ==> s@.len() > 0 ==> overridden(c, env).model == s@,
        env.workspace is None ==> overridden(c, env).workspace == c.workspace,
        env.workspace matches Some(s) ==> s@.len() == 0 ==> overridden(c, env).workspace == c.workspace,
        env.workspace matches Some(s) ==> s@.len() > 0 ==> overridden(c, env).workspace == s@,
        env.yolo is None ==> overridden(c, env).yolo == c.yolo,
        env.yolo matches Some(v) ==> bool_in(v@) is None ==> overridden(c, env).yolo == c.yolo,
        env.yolo matches Some(v) ==> (bool_in(v@) matches Some(b) ==> overridden(c, env).yolo == b),
        overridden(c, env).temperature == c.temperature,
        overridden(c, env).system == c.system,
        overridden(c, env).models == c.models,
        overridden(c, env).context_window == c.context_window,
        overridden(c, env).providers == c.providers,
        overridden(c, env).provider_id == c.provider_id,
        overridden(c, env).task_worktrees == c.task_worktrees,
        overridden(c, env).disabled_plugins == c.disabled_plugins,
{
}

/// A flag is on where it says 1, true, yes or on, and off where it says 0, false, no or off, in any
/// case and with any space around it; anything else is no flag.
pub proof fn flags_are_read_leniently(v: Seq<char>)
    ensures
        ({
            let t = lower_of(trim_of(v));
            &&& bool_in(v) == Some(true) <==> t == "1"@ || t == "true"@ || t == "yes"@ || t == "on"@
            &&& bool_in(v) == Some(false) <==> t == "0"@ || t == "false"@ || t == "no"@ || t
                == "off"@
        }),
{
    reveal_strlit("1");
    reveal_strlit("true");
    reveal_strlit("yes");
    reveal_strlit("on");
    reveal_strlit("0");
    reveal_strlit("false");
    reveal_strlit("no");
    reveal_strlit("off");
    assert("1"@.len() == 1);
    assert("true"@.len() == 4);
    assert("yes"@.len() == 3);
    assert("on"@.len() == 2);
    assert("0"@.len() == 1);
    assert("false"@.len() == 5);
    assert("no"@.len() == 2);
    assert("off"@.len() == 3);
    assert("1"@[0] == '1' && "0"@[0] == '0');
    assert("yes"@[0] == 'y' && "off"@[0] == 'o');
    assert("on"@[0] == 'o' && "no"@[0] == 'n');
}

/// A run starts with the stored settings as far as the environment does not change them, and the
/// first provider has an address, a key and models if the connection has. The others are as they
/// were stored.
pub proof fn a_run_starts_with_what_was_stored(cwd: Seq<char>, c: Config, env: Overrides, i: int)
    requires
        0 <= i < c@.providers.len(),
    ensures
        ({
            let r = configured(cwd, Some(c), env);
            let p = c@.providers[i];
            let q = r.providers[i];
            &&& r.providers.len() == c@.providers.len()
            &&& i > 0 ==> q == p
            &&& q.id == p.id
            &&& q.name == p.name
            &&& q.enabled == p.enabled
            &&& q.disabled_models == p.disabled_models
            &&& q.model_meta == p.model_meta
            &&& q.context_window == p.context_window
            &&& p.api_key.len() > 0 ==> q.api_key == p.api_key
            &&& p.base_url.len() > 0 ==> q.base_url == p.base_url
            &&& p.models.len() > 0 ==> q.models == p.models
            &&& i == 0 && p.api_key.len() == 0 ==> q.api_key == r.api_key
            &&& i == 0 && p.base_url.len() == 0 ==> q.base_url == r.base_url
            &&& i == 0 && p.models.len() == 0 ==> q.models == r.models
            &&& r.system == if c@.system.len() > 0 {
                c@.system
            } else {
                DEFAULT_SYSTEM@
            }
            &&& r.disabled_plugins == c@.disabled_plugins
            &&& r.task_worktrees == c@.task_worktrees
        }),
{
}

/// All but the keys is stored.
pub proof fn all_but_the_keys_is_stored(c: ConfigV, i: int)
    requires
        0 <= i < c.providers.len(),
    ensures
        keyless(c).base_url == c.base_url,
        keyless(c).model == c.model,
        keyless(c).temperature == c.temperature,
        keyless(c).system == c.system,
        keyless(c).workspace == c.workspace,
        keyless(c).yolo == c.yolo,
        keyless(c).models == c.models,
        keyless(c).context_window == c.context_window,
        keyless(c).provider_id == c.provider_id,
        keyless(c).task_worktrees == c.task_worktrees,
        keyless(c).disabled_plugins == c.disabled_plugins,
        keyless(c).providers.len() == c.providers.len(),
        keyless(c).providers[i] == (ProviderV { api_key: Seq::empty(), ..c.providers[i] }),
{
}

/// A model is on offer exactly where its provider lists it and is on, and the model is not switched
/// off; the offer names the model, the provider and its name.
pub proof fn what_is_on_offer_is_listed(ps: Seq<ProviderV>, x: ModelChoiceV)
    ensures
        catalogue(ps).contains(x) <==> exists|i: int|
            0 <= i < ps.len() && (#[trigger] ps[i]).enabled && ps[i].models.contains(x.model)
                && !ps[i].disabled_models.contains(x.model) && x.provider == ps[i].id
                && x.provider_name == ps[i].name,
    decreases ps.len(),
{
    if ps.len() > 0 {
        let d = ps.drop_last();
        let p = ps.last();
        what_is_on_offer_is_listed(d, x);
        offered_is_all(p, p.models, x);
        let a = catalogue(d);
        let b = offered(p, p.models);
        assert((a + b).contains(x) <==> a.contains(x) || b.contains(x)) by {
            if a.contains(x) {
                let k = choose|k: int| 0 <= k < a.len() && a[k] == x;
                assert((a + b)[k] == x);
            }
            if b.contains(x) {
                let k = choose|k: int| 0 <= k < b.len() && b[k] == x;
                assert((a + b)[a.len() + k] == x);
            }
        }
        assert(forall|i: int| 0 <= i < d.len() ==> d[i] == ps[i]);
        if a.contains(x) {
            let i = choose|i: int|
                0 <= i < d.len() && (#[trigger] d[i]).enabled && d[i].models.contains(x.model)
                    && !d[i].disabled_models.contains(x.model) && x.provider == d[i].id
                    && x.provider_name == d[i].name;
            assert(ps[i].enabled);
        }
        if b.contains(x) {
            assert(ps[ps.len() - 1].enabled);
        }
    }
}

proof fn offered_is_all(p: ProviderV, models: Seq<Seq<char>>, x: ModelChoiceV)
    ensures
        offered(p, models).contains(x) <==> models.contains(x.model) && offers(p, x.model) && x
            == choice(p, x.model),
    decreases models.len(),
{
    if models.len() > 0 {
        let d = models.drop_last();
        offered_is_all(p, d, x);
        let a = offered(p, d);
        let r = offered(p, models);
        assert(models.contains(x.model) <==> d.contains(x.model) || models.last() == x.model) by {
            if d.contains(x.model) {
                let k = choose|k: int| 0 <= k < d.len() && d[k] == x.model;
                assert(models[k] == x.model);
            }
            if models.last() == x.model {
                assert(models[models.len() - 1] == x.model);
            }
            if models.contains(x.model) {
                let k = choose|k: int| 0 <= k < models.len() && models[k] == x.model;
                if k < d.len() {
                    assert(d[k] == x.model);
                }
            }
        }
        if offers(p, models.last()) {
            let y = choice(p, models.last());
            assert(r.contains(x) <==> a.contains(x) || y == x) by {
                if a.contains(x) {
                    let k = choose|k: int| 0 <= k < a.len() && a[k] == x;
                    assert(r[k] == x);
                }
                if y == x {
                    assert(r[r.len() - 1] == x);
                }
                if r.contains(x) {
                    let k = choose|k: int| 0 <= k < r.len() && r[k] == x;
                    if k < a.len() {
                        assert(a[k] == x);
                    }
                }
            }
        }
    }
}

/// Choosing a model changes the model, and with it at most the connection: all other settings stay.
/// Where the provider that was asked for offers the model, and is not the active one, the connection
/// is that of a provider with its id.
pub proof fn choosing_a_model_moves_the_connection(c: ConfigV, model: Seq<char>, wanted: Seq<char>)
    ensures
        ({
            let r = on_model(c, model, wanted);
            &&& r.model == model
            &&& r.temperature == c.temperature
            &&& r.system == c.system
            &&& r.workspace == c.workspace
            &&& r.yolo == c.yolo
            &&& r.context_window == c.context_window
            &&& r.providers == c.providers
            &&& r.task_worktrees == c.task_worktrees
            &&& r.disabled_plugins == c.disabled_plugins
            &&& (exists|i: int|
                0 <= i < c.providers.len() && (#[trigger] c.providers[i]).id == wanted
                    && c.providers[i].enabled && c.providers[i].models.contains(model)
                    && !c.providers[i].disabled_models.contains(model)) ==> r.provider_id == wanted && (
            c.provider_id.len() == 0 || c.provider_id != wanted ==> exists|i: int|
                0 <= i < c.providers.len() && (#[trigger] c.providers[i]).id == wanted
                    && r.base_url == c.providers[i].base_url && r.api_key == c.providers[i].api_key
                    && r.models == c.providers[i].models)
        }),
{
    let r = on_model(c, model, wanted);
    let ps = c.providers;
    first_fitting_fits(ps, Some(model), Some(wanted));
    if exists|i: int|
        0 <= i < ps.len() && (#[trigger] ps[i]).id == wanted && ps[i].enabled
            && ps[i].models.contains(model) && !ps[i].disabled_models.contains(model) {
        let i = choose|i: int|
            0 <= i < ps.len() && (#[trigger] ps[i]).id == wanted && ps[i].enabled
                && ps[i].models.contains(model) && !ps[i].disabled_models.contains(model);
        assert(fits(ps[i], Some(model), Some(wanted)));
        let p = first_fitting(ps, Some(model), Some(wanted))->Some_0;
        assert(ps.contains(p));
        let k = choose|k: int| 0 <= k < ps.len() && ps[k] == p;
        assert(ps[k].id == wanted);
        if c.provider_id.len() == 0 || c.provider_id != wanted {
            assert(r.base_url == ps[k].base_url);
        }
    }
}

/// Settings are brought in line with the model that they name: the connection becomes that of a
/// provider that offers it, and where none does everything stays.
pub proof fn the_connection_follows_the_model(c: ConfigV)
    ensures
        ({
            let r = connected(c);
            &&& r.model == c.model
            &&& r.providers == c.providers
            &&& r.system == c.system
            &&& r.workspace == c.workspace
            &&& r.temperature == c.temperature
            &&& r.yolo == c.yolo
            &&& r.context_window == c.context_window
            &&& r.task_worktrees == c.task_worktrees
            &&& r.disabled_plugins == c.disabled_plugins
            &&& (forall|i: int| 0 <= i < c.providers.len() ==> !offers(#[trigger] c.providers[i], c.model))
                ==> r == c
            &&& (exists|i: int| 0 <= i < c.providers.len() && offers(#[trigger] c.providers[i], c.model))
                ==> exists|k: int|
                0 <= k < c.providers.len() && offers(#[trigger] c.providers[k], c.model)
                    && r.base_url == c.providers[k].base_url && r.api_key == c.providers[k].api_key
                    && r.provider_id == c.providers[k].id && r.models == c.providers[k].models
        }),
{
    let ps = c.providers;
    a_model_comes_with_its_provider(ps, c.model, c.provider_id);
    match server_of(ps, c.model, c.provider_id) {
        Some(p) => {
            let k = choose|k: int| 0 <= k < ps.len() && ps[k] == p;
            assert(offers(ps[k], c.model));
        },
        None => {},
    }
}

/// Where no provider is at the address of the connection, the window is the one that is set for all,
/// or the one to assume where none is set, and no level is chosen. The provider of the connection is
/// one at its address.
pub proof fn the_window_of_an_unknown_provider(c: ConfigV)
    ensures
        (forall|i: int| 0 <= i < c.providers.len() ==> (#[trigger] c.providers[i]).base_url != c.base_url)
            ==> active_effort(c) is None && active_window(c) == if c.context_window > 0 {
            c.context_window
        } else {
            1_000_000
        },
        (exists|i: int| 0 <= i < c.providers.len() && (#[trigger] c.providers[i]).base_url == c.base_url)
            ==> (active_provider(c) matches Some(p) && p.base_url == c.base_url
            && c.providers.contains(p) && (p.id == c.provider_id || forall|i: int|
            0 <= i < c.providers.len() ==> !((#[trigger] c.providers[i]).base_url == c.base_url
                && c.providers[i].id == c.provider_id))),
{
    provider_at_is_there(c.providers, c.base_url, Some(c.provider_id));
    provider_at_is_there(c.providers, c.base_url, None);
}

proof fn provider_at_is_there(ps: Seq<ProviderV>, url: Seq<char>, id: Option<Seq<char>>)
    ensures
        match provider_at(ps, url, id) {
            Some(p) => ps.contains(p) && p.base_url == url && (id matches Some(i) ==> p.id == i),
            None => forall|k: int|
                0 <= k < ps.len() ==> !((#[trigger] ps[k]).base_url == url && (id matches Some(i)
                    ==> ps[k].id == i)),
        },
    decreases ps.len(),
{
    if ps.len() > 0 {
        let d = ps.drop_last();
        provider_at_is_there(d, url, id);
        match provider_at(d, url, id) {
            Some(p) => {
                let k = choose|k: int| 0 <= k < d.len() && d[k] == p;
                assert(ps[k] == p);
            },
            None => {
                assert(ps[ps.len() - 1] == ps.last());
                assert forall|k: int| 0 <= k < d.len() implies !((#[trigger] ps[k]).base_url == url && (
                id matches Some(i) ==> ps[k].id == i)) by {
                    assert(d[k] == ps[k]);
                }
            },
        }
    }
}

/// What is known of a model is what stands under its id, the first that does.
pub proof fn what_is_known_stands_under_its_id(ms: Seq<ModelMetaV>, id: Seq<char>, i: int)
    requires
        0 <= i < ms.len(),
        ms[i].id == id,
        forall|j: int| 0 <= j < i ==> (#[trigger] ms[j]).id != id,
    ensures
        meta_of(ms, id) == Some(ms[i]),
{
    meta_is_there(ms, id);
    match meta_at(ms, id) {
        Some(k) => {
            if k < i {
                assert(ms[k].id != id);
            } else if i < k {
                assert(ms[i].id != id);
            }
        },
        None => {
            assert(ms[i].id != id);
        },
    }
}

} // verus!
