//! Changing the settings.

use vstd::prelude::*;

use crate::catalog::views;
use crate::engine::config::{
    connected, copy_metas, find_meta, first_fitting, keyless, meta_at, meta_is_there, meta_of,
    metas, providers_view, unless_empty, Config, ConfigV, ModelMeta, ModelMetaV, ProviderItem,
    ProviderV,
};
use crate::engine::plugins::{PluginInfo, PluginV};
use crate::engine::provider::models::{models_view, ModelInfo, ModelInfoV};
use crate::text::{blank, in_order, is_blank, one_of, opt_str, same, sorted, texts, trim, trim_of};

verus! {

/// What is to be done with the key of a provider.
#[derive(Debug)]
pub enum KeyDeed {
    /// Keep this key for the provider; an empty one is deleted.
    Save { provider: String, key: String },
    /// Delete the key of a provider that is gone.
    Delete { provider: String },
}

pub enum KeyDeedV {
    Save { provider: Seq<char>, key: Seq<char> },
    Delete { provider: Seq<char> },
}

impl View for KeyDeed {
    type V = KeyDeedV;

    open spec fn view(&self) -> KeyDeedV {
        match *self {
            KeyDeed::Save { provider, key } => KeyDeedV::Save { provider: provider@, key: key@ },
            KeyDeed::Delete { provider } => KeyDeedV::Delete { provider: provider@ },
        }
    }
}

pub open spec fn deeds(v: Seq<KeyDeed>) -> Seq<KeyDeedV> {
    Seq::new(v.len(), |i: int| v[i]@)
}

pub open spec fn unless_blank(new: Seq<char>, old: Seq<char>) -> Seq<char> {
    if blank(new) {
        old
    } else {
        new
    }
}

/// The settings that are kept when `c` is saved over `cur`: a connection that is left blank stays
/// as it is, and which plugins are off is not up to the form.
pub open spec fn seeded(c: ConfigV, cur: ConfigV) -> ConfigV {
    ConfigV {
        base_url: unless_blank(c.base_url, cur.base_url),
        api_key: unless_blank(c.api_key, cur.api_key),
        model: unless_blank(c.model, cur.model),
        provider_id: if blank(c.model) {
            cur.provider_id
        } else {
            c.provider_id
        },
        disabled_plugins: cur.disabled_plugins,
        ..c
    }
}

/// The key that the environment sets, if it sets any.
pub open spec fn environment_key(env: Option<Seq<char>>) -> Option<Seq<char>> {
    match env {
        Some(k) => if blank(k) {
            None
        } else {
            Some(trim_of(k))
        },
        None => None,
    }
}

/// Whether the key of a provider is only the one that the environment sets for this process.
pub open spec fn borrowed_key(p: ProviderV, active: Seq<char>, env: Option<Seq<char>>) -> bool {
    p.id == active && environment_key(env) == Some(p.api_key)
}

/// The keys to keep: those of all the providers but one that is borrowed.
pub open spec fn kept_keys(
    ps: Seq<ProviderV>,
    active: Seq<char>,
    env: Option<Seq<char>>,
) -> Seq<KeyDeedV>
    decreases ps.len(),
{
    if ps.len() == 0 {
        Seq::empty()
    } else {
        let r = kept_keys(ps.drop_last(), active, env);
        if borrowed_key(ps.last(), active, env) {
            r
        } else {
            r.push(KeyDeedV::Save { provider: ps.last().id, key: ps.last().api_key })
        }
    }
}

pub open spec fn has_provider(ps: Seq<ProviderV>, id: Seq<char>) -> bool {
    exists|i: int| 0 <= i < ps.len() && (#[trigger] ps[i]).id == id
}

/// The keys to delete: those of the providers that are gone.
pub open spec fn dropped_keys(old_ps: Seq<ProviderV>, new_ps: Seq<ProviderV>) -> Seq<KeyDeedV>
    decreases old_ps.len(),
{
    if old_ps.len() == 0 {
        Seq::empty()
    } else {
        let r = dropped_keys(old_ps.drop_last(), new_ps);
        if has_provider(new_ps, old_ps.last().id) {
            r
        } else {
            r.push(KeyDeedV::Delete { provider: old_ps.last().id })
        }
    }
}

fn lists(ps: &Vec<ProviderItem>, id: &str) -> (r: bool)
    ensures
        r == has_provider(providers_view(ps@), id@),
{
    let ghost v = providers_view(ps@);
    let mut i: usize = 0;
    while i < ps.len()
        invariant
            i <= ps.len(),
            v == providers_view(ps@),
            forall|k: int| 0 <= k < i ==> (#[trigger] v[k]).id != id@,
        decreases ps.len() - i,
    {
        assert(v[i as int] == ps@[i as int]@);
        if same(ps[i].id.as_str(), id) {
            return true;
        }
        i += 1;
    }
    false
}

/// Saves `config` over `cur`: what is kept, and what is to be done with the keys, first of all.
/// `env_key` is `E_API_KEY`: a key that only this process was given must not be kept for good.
pub fn save_config(config: Config, cur: &Config, env_key: Option<&str>) -> (r: (
    Config,
    Vec<KeyDeed>,
))
    ensures
        r.0@ == connected(seeded(config@, cur@)),
        deeds(r.1@) == kept_keys(config@.providers, cur@.provider_id, opt_str(env_key))
            + dropped_keys(cur@.providers, config@.providers),
{
    let ghost c0 = config@;
    let ghost env = opt_str(env_key);
    let mut c = config;
    let no_model: bool = is_blank(c.model.as_str());
    if is_blank(c.base_url.as_str()) {
        c.base_url = cur.base_url.clone();
    }
    if is_blank(c.api_key.as_str()) {
        c.api_key = cur.api_key.clone();
    }
    if no_model {
        c.model = cur.model.clone();
        c.provider_id = cur.provider_id.clone();
    }
    c.disabled_plugins = crate::text::copy_texts(&cur.disabled_plugins);
    let key: Option<String> = match env_key {
        Some(k) => {
            if is_blank(k) {
                None
            } else {
                Some(trim(k))
            }
        },
        None => None,
    };
    let ghost ps = c0.providers;
    let mut out: Vec<KeyDeed> = Vec::new();
    let mut i: usize = 0;
    assert(deeds(out@) =~= kept_keys(ps.take(0), cur@.provider_id, env));
    while i < c.providers.len()
        invariant
            i <= c.providers.len(),
            ps == providers_view(c.providers@),
            crate::text::opt_text(key) == environment_key(env),
            deeds(out@) == kept_keys(ps.take(i as int), cur@.provider_id, env),
        decreases c.providers.len() - i,
    {
        assert(ps.take(i + 1).drop_last() =~= ps.take(i as int));
        assert(ps[i as int] == c.providers@[i as int]@);
        let p = &c.providers[i];
        let borrowed: bool = same(p.id.as_str(), cur.provider_id.as_str()) && (match &key {
            Some(k) => same(k.as_str(), p.api_key.as_str()),
            None => false,
        });
        if !borrowed {
            let ghost before = deeds(out@);
            out.push(KeyDeed::Save { provider: p.id.clone(), key: p.api_key.clone() });
            assert(deeds(out@) =~= before.push(
                KeyDeedV::Save { provider: ps[i as int].id, key: ps[i as int].api_key },
            ));
        }
        i += 1;
    }
    assert(ps.take(ps.len() as int) =~= ps);
    let ghost kept = deeds(out@);
    let ghost os = cur@.providers;
    let mut j: usize = 0;
    assert(kept + dropped_keys(os.take(0), ps) =~= kept);
    while j < cur.providers.len()
        invariant
            j <= cur.providers.len(),
            ps == providers_view(c.providers@),
            os == providers_view(cur.providers@),
            deeds(out@) == kept + dropped_keys(os.take(j as int), ps),
        decreases cur.providers.len() - j,
    {
        assert(os.take(j + 1).drop_last() =~= os.take(j as int));
        assert(os[j as int] == cur.providers@[j as int]@);
        let ghost before = deeds(out@);
        if !lists(&c.providers, cur.providers[j].id.as_str()) {
            out.push(KeyDeed::Delete { provider: cur.providers[j].id.clone() });
            assert(deeds(out@) =~= before.push(KeyDeedV::Delete { provider: os[j as int].id }));
        }
        assert(deeds(out@) =~= kept + dropped_keys(os.take(j + 1), ps));
        j += 1;
    }
    assert(os.take(os.len() as int) =~= os);
    (c.normalize(), out)
}

/// Saving the settings never switches a plugin on or off.
pub proof fn saving_leaves_plugins_alone(c: ConfigV, cur: ConfigV)
    ensures
        connected(seeded(c, cur)).disabled_plugins == cur.disabled_plugins,
{
}

/// A key that only the environment sets is never kept for good: while a provider is the active
/// one and has that key, no key is kept for it.
pub proof fn environment_keys_are_never_kept(
    ps: Seq<ProviderV>,
    active: Seq<char>,
    env: Option<Seq<char>>,
    i: int,
)
    requires
        0 <= i < kept_keys(ps, active, env).len(),
    ensures
        kept_keys(ps, active, env)[i] matches KeyDeedV::Save { provider, key } && !(provider
            == active && environment_key(env) == Some(key)),
    decreases ps.len(),
{
    if ps.len() > 0 {
        let r = kept_keys(ps.drop_last(), active, env);
        if i < r.len() {
            environment_keys_are_never_kept(ps.drop_last(), active, env, i);
        }
    }
}

// ---- plugins ------------------------------------------------------------------------------------------

pub open spec fn names_without(list: Seq<Seq<char>>, name: Seq<char>) -> Seq<Seq<char>>
    decreases list.len(),
{
    if list.len() == 0 {
        Seq::empty()
    } else if list.last() == name {
        names_without(list.drop_last(), name)
    } else {
        names_without(list.drop_last(), name).push(list.last())
    }
}

/// Whether `r` are the plugins that are off once one has been switched on or off.
pub open spec fn switched(
    r: Seq<Seq<char>>,
    off: Seq<Seq<char>>,
    name: Seq<char>,
    enabled: bool,
) -> bool {
    &&& enabled ==> r == names_without(off, name)
    &&& !enabled ==> in_order(r) && r.to_multiset() == names_without(off, name).push(
        name,
    ).to_multiset()
}

/// The plugins that are off once one has been switched on or off. With one more they are put in
/// order.
pub fn set_plugin_enabled(off: Vec<String>, name: &str, enabled: bool) -> (r: Vec<String>)
    ensures
        switched(texts(r@), texts(off@), name@, enabled),
{
    let ghost t = texts(off@);
    let mut out: Vec<String> = Vec::new();
    let mut i: usize = 0;
    assert(texts(out@) =~= names_without(t.take(0), name@));
    while i < off.len()
        invariant
            i <= off.len(),
            t == texts(off@),
            texts(out@) == names_without(t.take(i as int), name@),
        decreases off.len() - i,
    {
        assert(t.take(i + 1).drop_last() =~= t.take(i as int));
        if !same(off[i].as_str(), name) {
            let ghost before = texts(out@);
            out.push(off[i].clone());
            assert(texts(out@) =~= before.push(t[i as int]));
        }
        i += 1;
    }
    assert(t.take(t.len() as int) =~= t);
    if enabled {
        return out;
    }
    let ghost before = texts(out@);
    out.push(name.to_string());
    assert(texts(out@) =~= before.push(name@));
    sorted(out)
}

pub open spec fn marked(p: PluginV, off: Seq<Seq<char>>) -> PluginV {
    PluginV { enabled: !off.contains(p.name), ..p }
}

pub open spec fn all_marked(v: Seq<PluginV>, off: Seq<Seq<char>>) -> Seq<PluginV> {
    Seq::new(v.len(), |i: int| marked(v[i], off))
}

/// The plugins, each told whether it is on.
pub fn mark_enabled(plugins: Vec<PluginInfo>, off: &Vec<String>) -> (r: Vec<PluginInfo>)
    ensures
        views(r@) == all_marked(views(plugins@), texts(off@)),
{
    let ghost v = views(plugins@);
    let ghost o = texts(off@);
    let mut out = plugins;
    let mut i: usize = 0;
    while i < out.len()
        invariant
            i <= out.len(),
            out@.len() == v.len(),
            o == texts(off@),
            forall|k: int| 0 <= k < i ==> (#[trigger] out@[k])@ == marked(v[k], o),
            forall|k: int| i <= k < v.len() ==> (#[trigger] out@[k])@ == v[k],
        decreases out.len() - i,
    {
        let on: bool = !one_of(out[i].name.as_str(), off);
        assert(out@[i as int]@ == v[i as int]);
        out[i].enabled = on;
        assert(out@[i as int]@ == marked(v[i as int], o));
        i += 1;
    }
    assert(views(out@) =~= all_marked(v, o));
    out
}

/// `fresh`, and behind it what is only in `known`, each once.
pub open spec fn refreshed(fresh: Seq<Seq<char>>, known: Seq<Seq<char>>) -> Seq<Seq<char>>
    decreases known.len(),
{
    if known.len() == 0 {
        fresh
    } else {
        let m = refreshed(fresh, known.drop_last());
        if m.contains(known.last()) {
            m
        } else {
            m.push(known.last())
        }
    }
}

pub open spec fn ids_of(v: Seq<ModelInfoV>) -> Seq<Seq<char>> {
    Seq::new(v.len(), |i: int| v[i].id)
}

/// Whether a listing says anything of a model but its id.
pub open spec fn says_something(info: ModelInfoV) -> bool {
    info.context_window is Some || info.reasoning is Some || info.reasoning_efforts.len() > 0
}

/// What is known of a model, with what a listing says of it where nothing was known.
pub open spec fn filled_in(m: ModelMetaV, info: ModelInfoV) -> ModelMetaV {
    ModelMetaV {
        context_window: match m.context_window {
            Some(w) => Some(w),
            None => info.context_window,
        },
        reasoning: match m.reasoning {
            Some(b) => Some(b),
            None => info.reasoning,
        },
        reasoning_efforts: unless_empty(m.reasoning_efforts, info.reasoning_efforts),
        ..m
    }
}

/// What a listing says of a model.
pub open spec fn newly_known(info: ModelInfoV) -> ModelMetaV {
    ModelMetaV {
        id: info.id,
        context_window: info.context_window,
        reasoning: info.reasoning,
        reasoning_efforts: info.reasoning_efforts,
        reasoning_effort: None,
    }
}

/// What is known of models once one more is listed.
pub open spec fn learnt(ms: Seq<ModelMetaV>, info: ModelInfoV) -> Seq<ModelMetaV> {
    match meta_at(ms, info.id) {
        Some(i) => ms.update(i, filled_in(ms[i], info)),
        None => if says_something(info) {
            ms.push(newly_known(info))
        } else {
            ms
        },
    }
}

/// What is known of models once they are listed.
pub open spec fn all_learnt(ms: Seq<ModelMetaV>, listed: Seq<ModelInfoV>) -> Seq<ModelMetaV>
    decreases listed.len(),
{
    if listed.len() == 0 {
        ms
    } else {
        learnt(all_learnt(ms, listed.drop_last()), listed.last())
    }
}

fn learn(known: &mut Vec<ModelMeta>, info: &ModelInfo)
    ensures
        metas(final(known)@) == learnt(metas(old(known)@), info@),
{
    let ghost ms = metas(known@);
    assert(texts(info.reasoning_efforts@).len() == info.reasoning_efforts@.len());
    match find_meta(known, info.id.as_str()) {
        Some(i) => {
            let mut m = known[i].clone();
            assert(m@ == ms[i as int]);
            assert(texts(m.reasoning_efforts@).len() == m.reasoning_efforts@.len());
            if m.context_window.is_none() {
                m.context_window = info.context_window;
            }
            if m.reasoning.is_none() {
                m.reasoning = info.reasoning;
            }
            if m.reasoning_efforts.len() == 0 {
                m.reasoning_efforts = crate::text::copy_texts(&info.reasoning_efforts);
            }
            assert(m@ == filled_in(ms[i as int], info@));
            known.set(i, m);
            assert(metas(known@) =~= ms.update(i as int, m@));
        },
        None => {
            if info.context_window.is_some() || info.reasoning.is_some()
                || info.reasoning_efforts.len() > 0 {
                let m = ModelMeta {
                    id: info.id.clone(),
                    context_window: info.context_window,
                    reasoning: info.reasoning,
                    reasoning_efforts: crate::text::copy_texts(&info.reasoning_efforts),
                    reasoning_effort: None,
                };
                known.push(m);
                assert(metas(known@) =~= ms.push(m@));
            }
        },
    }
}

/// A provider with the models that it lists. One that was added by hand stays behind them. What the
/// listing says of a model is recorded where nothing was set, and everything that was set stays as
/// it is: a window, a level, or anything else.
pub fn refresh_models(provider: ProviderItem, listed: &Vec<ModelInfo>) -> (r: ProviderItem)
    ensures
        r@ == (ProviderV {
            models: refreshed(ids_of(models_view(listed@)), provider@.models),
            model_meta: all_learnt(provider@.model_meta, models_view(listed@)),
            ..provider@
        }),
{
    let ghost fresh = ids_of(models_view(listed@));
    let ghost known = provider@.models;
    let mut models: Vec<String> = Vec::new();
    let mut i: usize = 0;
    while i < listed.len()
        invariant
            i <= listed.len(),
            fresh == ids_of(models_view(listed@)),
            texts(models@) == fresh.take(i as int),
        decreases listed.len() - i,
    {
        let ghost before = models@;
        models.push(listed[i].id.clone());
        assert(texts(models@) =~= texts(before).push(listed@[i as int].id@));
        assert(texts(models@) =~= fresh.take(i + 1));
        i += 1;
    }
    assert(fresh.take(i as int) =~= fresh);
    assert(known.take(0) =~= Seq::empty());
    let mut k: usize = 0;
    while k < provider.models.len()
        invariant
            k <= provider.models.len(),
            known == texts(provider.models@),
            texts(models@) == refreshed(fresh, known.take(k as int)),
        decreases provider.models.len() - k,
    {
        let ghost before = models@;
        assert(known.take(k + 1).drop_last() =~= known.take(k as int));
        if !one_of(provider.models[k].as_str(), &models) {
            models.push(provider.models[k].clone());
            assert(texts(models@) =~= texts(before).push(known[k as int]));
        }
        k += 1;
    }
    assert(known.take(known.len() as int) =~= known);
    let ghost infos = models_view(listed@);
    let mut model_meta = copy_metas(&provider.model_meta);
    let mut n: usize = 0;
    while n < listed.len()
        invariant
            n <= listed.len(),
            infos == models_view(listed@),
            metas(model_meta@) == all_learnt(metas(provider.model_meta@), infos.take(n as int)),
        decreases listed.len() - n,
    {
        assert(infos.take(n + 1).drop_last() =~= infos.take(n as int));
        assert(infos.take(n + 1).last() == listed@[n as int]@);
        learn(&mut model_meta, &listed[n]);
        n += 1;
    }
    assert(infos.take(infos.len() as int) =~= infos);
    ProviderItem {
        id: provider.id,
        name: provider.name,
        base_url: provider.base_url,
        api_key: provider.api_key,
        models,
        context_window: provider.context_window,
        enabled: provider.enabled,
        disabled_models: provider.disabled_models,
        model_meta,
    }
}

proof fn learning_keeps(ms: Seq<ModelMetaV>, listed: Seq<ModelInfoV>)
    ensures
        all_learnt(ms, listed).len() >= ms.len(),
        forall|i: int|
            0 <= i < ms.len() ==> keeps_what_is_set(
                ms[i],
                #[trigger] all_learnt(ms, listed)[i],
            ),
    decreases listed.len(),
{
    if listed.len() > 0 {
        let p = all_learnt(ms, listed.drop_last());
        learning_keeps(ms, listed.drop_last());
        meta_is_there(p, listed.last().id);
        assert forall|i: int| 0 <= i < ms.len() implies keeps_what_is_set(
            ms[i],
            #[trigger] all_learnt(ms, listed)[i],
        ) by {
            assert(keeps_what_is_set(ms[i], p[i]));
        }
    }
}

/// Whether nothing that is set in `a` is set otherwise in `b`.
pub open spec fn keeps_what_is_set(a: ModelMetaV, b: ModelMetaV) -> bool {
    &&& b.id == a.id
    &&& b.reasoning_effort == a.reasoning_effort
    &&& a.context_window is Some ==> b.context_window == a.context_window
    &&& a.reasoning is Some ==> b.reasoning == a.reasoning
    &&& a.reasoning_efforts.len() > 0 ==> b.reasoning_efforts == a.reasoning_efforts
}

/// A refresh never overwrites a window that was set, nor a level that was chosen, nor anything else
/// that was known of a model.
pub proof fn a_refresh_overwrites_nothing(ms: Seq<ModelMetaV>, listed: Seq<ModelInfoV>, i: int)
    requires
        0 <= i < ms.len(),
    ensures
        i < all_learnt(ms, listed).len(),
        keeps_what_is_set(ms[i], all_learnt(ms, listed)[i]),
{
    learning_keeps(ms, listed);
}

proof fn learnt_of(ms: Seq<ModelMetaV>, info: ModelInfoV, id: Seq<char>)
    ensures
        meta_of(learnt(ms, info), id) == if id == info.id {
            advertised(meta_of(ms, id), info)
        } else {
            meta_of(ms, id)
        },
{
    let r = learnt(ms, info);
    meta_is_there(ms, id);
    meta_is_there(ms, info.id);
    meta_is_there(r, id);
    match meta_at(ms, info.id) {
        Some(k) => {
            assert forall|j: int| 0 <= j < ms.len() implies (#[trigger] r[j]).id == ms[j].id by {}
            match (meta_at(ms, id), meta_at(r, id)) {
                (Some(a), Some(b)) => {
                    assert(ms[b].id == id && r[a].id == id);
                    assert(a == b);
                },
                (Some(a), None) => {
                    assert(r[a].id == id);
                },
                (None, Some(b)) => {
                    assert(ms[b].id == id);
                },
                (None, None) => {},
            }
        },
        None => {
            if says_something(info) {
                assert(r.drop_last() =~= ms);
            }
        },
    }
}

/// What is known of a model once a listing has said `info` of it.
pub open spec fn advertised(known: Option<ModelMetaV>, info: ModelInfoV) -> Option<ModelMetaV> {
    match known {
        Some(m) => Some(filled_in(m, info)),
        None => if says_something(info) {
            Some(newly_known(info))
        } else {
            None
        },
    }
}

proof fn learnt_of_all(ms: Seq<ModelMetaV>, listed: Seq<ModelInfoV>, id: Seq<char>)
    requires
        forall|i: int, j: int| 0 <= i < j < listed.len() ==> listed[i].id != listed[j].id,
    ensures
        (forall|i: int| 0 <= i < listed.len() ==> (#[trigger] listed[i]).id != id) ==> meta_of(
            all_learnt(ms, listed),
            id,
        ) == meta_of(ms, id),
        forall|i: int|
            0 <= i < listed.len() && (#[trigger] listed[i]).id == id ==> meta_of(
                all_learnt(ms, listed),
                id,
            ) == advertised(meta_of(ms, id), listed[i]),
    decreases listed.len(),
{
    if listed.len() > 0 {
        let d = listed.drop_last();
        assert forall|i: int, j: int| 0 <= i < j < d.len() implies d[i].id != d[j].id by {
            assert(listed[i].id != listed[j].id);
        }
        learnt_of_all(ms, d, id);
        learnt_of(all_learnt(ms, d), listed.last(), id);
        if listed.last().id == id {
            assert forall|i: int| 0 <= i < d.len() implies (#[trigger] d[i]).id != id by {
                assert(listed[i].id != listed[listed.len() - 1].id);
            }
        } else {
            assert forall|i: int| 0 <= i < listed.len() && (#[trigger] listed[i]).id == id implies meta_of(
                all_learnt(ms, listed),
                id,
            ) == advertised(meta_of(ms, id), listed[i]) by {
                assert(d[i] == listed[i]);
            }
            if forall|i: int| 0 <= i < listed.len() ==> (#[trigger] listed[i]).id != id {
                assert forall|i: int| 0 <= i < d.len() implies (#[trigger] d[i]).id != id by {
                    assert(listed[i].id != id);
                }
            }
        }
    }
}

/// What a listing says of a model is recorded where nothing was set for it, and what is known of
/// models that are not listed is as it was.
pub proof fn a_refresh_records_what_is_advertised(
    ms: Seq<ModelMetaV>,
    listed: Seq<ModelInfoV>,
    i: int,
    other: Seq<char>,
)
    requires
        0 <= i < listed.len(),
        forall|a: int, b: int| 0 <= a < b < listed.len() ==> listed[a].id != listed[b].id,
    ensures
        meta_of(all_learnt(ms, listed), listed[i].id) == advertised(
            meta_of(ms, listed[i].id),
            listed[i],
        ),
        (forall|k: int| 0 <= k < listed.len() ==> (#[trigger] listed[k]).id != other) ==> meta_of(
            all_learnt(ms, listed),
            other,
        ) == meta_of(ms, other),
{
    learnt_of_all(ms, listed, listed[i].id);
    learnt_of_all(ms, listed, other);
}

/// A refresh drops no model that was known and adds none that was not listed.
pub proof fn a_refresh_forgets_nothing(fresh: Seq<Seq<char>>, known: Seq<Seq<char>>)
    ensures
        fresh.is_prefix_of(refreshed(fresh, known)),
        forall|m: Seq<char>|
            refreshed(fresh, known).contains(m) <==> fresh.contains(m) || known.contains(m),
    decreases known.len(),
{
    if known.len() > 0 {
        let init = known.drop_last();
        let last = known.last();
        let m = refreshed(fresh, init);
        broadcast use vstd::seq_lib::lemma_seq_contains_after_push;
        a_refresh_forgets_nothing(fresh, init);
        assert(known =~= init.push(last));
        assert forall|x: Seq<char>|
            refreshed(fresh, known).contains(x) <==> fresh.contains(x) || known.contains(x) by {
            assert(m.push(last).contains(x) <==> last == x || m.contains(x));
            assert(init.push(last).contains(x) <==> last == x || init.contains(x));
        }
    }
}

// ---- keys at the start ------------------------------------------------------------------------------

/// The keys that a settings file still holds.
pub open spec fn plain_keys(ps: Seq<ProviderV>) -> Seq<KeyDeedV>
    decreases ps.len(),
{
    if ps.len() == 0 {
        Seq::empty()
    } else {
        let r = plain_keys(ps.drop_last());
        if ps.last().api_key.len() == 0 {
            r
        } else {
            r.push(KeyDeedV::Save { provider: ps.last().id, key: ps.last().api_key })
        }
    }
}

/// The keys that a settings file still holds, to be kept by the operating system from now on.
pub fn migrate_keys(stored: &Config) -> (r: Vec<KeyDeed>)
    ensures
        deeds(r@) == plain_keys(stored@.providers),
{
    let ghost ps = stored@.providers;
    let mut out: Vec<KeyDeed> = Vec::new();
    let mut i: usize = 0;
    assert(deeds(out@) =~= plain_keys(ps.take(0)));
    while i < stored.providers.len()
        invariant
            i <= stored.providers.len(),
            ps == providers_view(stored.providers@),
            deeds(out@) == plain_keys(ps.take(i as int)),
        decreases stored.providers.len() - i,
    {
        assert(ps.take(i + 1).drop_last() =~= ps.take(i as int));
        let p = &stored.providers[i];
        assert(p@ == ps[i as int]);
        if p.api_key.as_str().unicode_len() > 0 {
            let ghost before = deeds(out@);
            out.push(KeyDeed::Save { provider: p.id.clone(), key: p.api_key.clone() });
            assert(deeds(out@) =~= before.push(
                KeyDeedV::Save { provider: ps[i as int].id, key: ps[i as int].api_key },
            ));
        }
        i += 1;
    }
    assert(ps.take(ps.len() as int) =~= ps);
    out
}

/// A provider with the key that was kept for it, unless it has one.
pub open spec fn unlocked_provider(p: ProviderV, key: Option<Seq<char>>) -> ProviderV {
    ProviderV {
        api_key: unless_empty(
            p.api_key,
            match key {
                Some(k) => k,
                None => Seq::empty(),
            },
        ),
        ..p
    }
}

/// The settings with the keys that were kept for the providers; the connection gets that of the
/// selected provider, unless it has one.
pub open spec fn unlocked(c: ConfigV, keys: Seq<Option<Seq<char>>>) -> ConfigV {
    let ps = Seq::new(c.providers.len(), |i: int| unlocked_provider(c.providers[i], keys[i]));
    ConfigV {
        providers: ps,
        api_key: unless_empty(
            c.api_key,
            match first_fitting(ps, None, Some(c.provider_id)) {
                Some(p) => p.api_key,
                None => Seq::empty(),
            },
        ),
        ..c
    }
}

pub open spec fn keys_view(v: Seq<Option<String>>) -> Seq<Option<Seq<char>>> {
    Seq::new(v.len(), |i: int| crate::text::opt_text(v[i]))
}

/// Puts the keys that were kept back into the settings.
pub fn restore_keys(stored: Config, keys: Vec<Option<String>>) -> (r: Config)
    requires
        keys@.len() == stored.providers@.len(),
    ensures
        r@ == unlocked(stored@, keys_view(keys@)),
{
    let ghost c0 = stored@;
    let ghost ps = c0.providers;
    let ghost ks = keys_view(keys@);
    let mut c = stored;
    let mut i: usize = 0;
    while i < c.providers.len()
        invariant
            i <= c.providers.len(),
            c.providers@.len() == ps.len(),
            keys@.len() == ps.len(),
            ks == keys_view(keys@),
            c@ == (ConfigV { providers: providers_view(c.providers@), ..c0 }),
            forall|k: int|
                0 <= k < i ==> (#[trigger] c.providers@[k])@ == unlocked_provider(ps[k], ks[k]),
            forall|k: int| i <= k < ps.len() ==> (#[trigger] c.providers@[k])@ == ps[k],
        decreases c.providers.len() - i,
    {
        let mut p = c.providers[i].clone();
        assert(p@ == ps[i as int]);
        if p.api_key.as_str().unicode_len() == 0 {
            p.api_key = match &keys[i] {
                Some(k) => k.clone(),
                None => String::new(),
            };
            assert(ks[i as int] is None ==> p.api_key@ =~= Seq::empty());
        }
        assert(p@ == unlocked_provider(ps[i as int], ks[i as int]));
        c.providers.set(i, p);
        i += 1;
    }
    let ghost qs = Seq::new(ps.len(), |i: int| unlocked_provider(ps[i], ks[i]));
    assert(c@.providers =~= qs);
    if c.api_key.as_str().unicode_len() == 0 {
        c.api_key = match c.key_of(c.provider_id.as_str()) {
            Some(k) => k,
            None => String::new(),
        };
        assert(first_fitting(qs, None, Some(c0.provider_id)) is None ==> c.api_key@ =~= Seq::empty());
    }
    c
}

/// Keys survive being kept apart: what was stored without them, and is given back what was kept
/// for each provider, is what it was.
pub proof fn keys_come_back(c: ConfigV, keys: Seq<Option<Seq<char>>>)
    requires
        keys.len() == c.providers.len(),
        forall|i: int|
            0 <= i < keys.len() ==> (#[trigger] keys[i]) == Some(c.providers[i].api_key),
    ensures
        unlocked(keyless(c), keys).providers == c.providers,
{
    assert forall|i: int| 0 <= i < keys.len() implies unlocked(keyless(c), keys).providers[i]
        == c.providers[i] by {
        assert(keys[i] == Some(c.providers[i].api_key));
    }
    assert(unlocked(keyless(c), keys).providers =~= c.providers);
}

// ---- what saving is for ------------------------------------------------------------------------------

/// What is entered is what is kept: of the connection what is not blank, and of the rest everything.
pub proof fn what_is_entered_is_kept(c: ConfigV, cur: ConfigV)
    ensures
        ({
            let r = seeded(c, cur);
            &&& !blank(c.base_url) ==> r.base_url == c.base_url
            &&& blank(c.base_url) ==> r.base_url == cur.base_url
            &&& !blank(c.api_key) ==> r.api_key == c.api_key
            &&& blank(c.api_key) ==> r.api_key == cur.api_key
            &&& !blank(c.model) ==> r.model == c.model && r.provider_id == c.provider_id
            &&& blank(c.model) ==> r.model == cur.model && r.provider_id == cur.provider_id
            &&& r.temperature == c.temperature
            &&& r.system == c.system
            &&& r.workspace == c.workspace
            &&& r.yolo == c.yolo
            &&& r.models == c.models
            &&& r.context_window == c.context_window
            &&& r.providers == c.providers
            &&& r.task_worktrees == c.task_worktrees
            &&& r.disabled_plugins == cur.disabled_plugins
        }),
{
}

/// The key of every provider is kept, unless it is the one that the environment lends to the active
/// provider; the key of every provider that is gone is deleted, and no other.
pub proof fn every_key_is_looked_after(
    old_ps: Seq<ProviderV>,
    new_ps: Seq<ProviderV>,
    active: Seq<char>,
    env: Option<Seq<char>>,
    i: int,
)
    ensures
        0 <= i < new_ps.len() && !(new_ps[i].id == active && (env matches Some(k) && !blank(k) && trim_of(
            k,
        ) == new_ps[i].api_key)) ==> kept_keys(new_ps, active, env).contains(
            KeyDeedV::Save { provider: new_ps[i].id, key: new_ps[i].api_key },
        ),
        0 <= i < old_ps.len() && (forall|j: int|
            0 <= j < new_ps.len() ==> (#[trigger] new_ps[j]).id != old_ps[i].id) ==> dropped_keys(
            old_ps,
            new_ps,
        ).contains(KeyDeedV::Delete { provider: old_ps[i].id }),
        0 <= i < dropped_keys(old_ps, new_ps).len() ==> (dropped_keys(old_ps, new_ps)[i] matches KeyDeedV::Delete {
            provider,
        } && forall|j: int| 0 <= j < new_ps.len() ==> (#[trigger] new_ps[j]).id != provider),
{
    if 0 <= i < new_ps.len() {
        kept_key_is_there(new_ps, active, env, i);
    }
    if 0 <= i < old_ps.len() {
        dropped_key_is_there(old_ps, new_ps, i);
    }
    if 0 <= i < dropped_keys(old_ps, new_ps).len() {
        dropped_key_is_gone(old_ps, new_ps, i);
    }
}

proof fn kept_key_is_there(
    ps: Seq<ProviderV>,
    active: Seq<char>,
    env: Option<Seq<char>>,
    i: int,
)
    requires
        0 <= i < ps.len(),
    ensures
        !borrowed_key(ps[i], active, env) ==> kept_keys(ps, active, env).contains(
            KeyDeedV::Save { provider: ps[i].id, key: ps[i].api_key },
        ),
    decreases ps.len(),
{
    let r = kept_keys(ps, active, env);
    let x = KeyDeedV::Save { provider: ps[i].id, key: ps[i].api_key };
    if !borrowed_key(ps[i], active, env) {
        if i == ps.len() - 1 {
            assert(r[r.len() - 1] == x);
        } else {
            let d = ps.drop_last();
            kept_key_is_there(d, active, env, i);
            let p = kept_keys(d, active, env);
            let k = choose|k: int| 0 <= k < p.len() && p[k] == x;
            assert(r[k] == x);
        }
    }
}

proof fn dropped_key_is_there(old_ps: Seq<ProviderV>, new_ps: Seq<ProviderV>, i: int)
    requires
        0 <= i < old_ps.len(),
    ensures
        !has_provider(new_ps, old_ps[i].id) ==> dropped_keys(old_ps, new_ps).contains(
            KeyDeedV::Delete { provider: old_ps[i].id },
        ),
    decreases old_ps.len(),
{
    let r = dropped_keys(old_ps, new_ps);
    let x = KeyDeedV::Delete { provider: old_ps[i].id };
    if !has_provider(new_ps, old_ps[i].id) {
        if i == old_ps.len() - 1 {
            assert(r[r.len() - 1] == x);
        } else {
            let d = old_ps.drop_last();
            dropped_key_is_there(d, new_ps, i);
            let p = dropped_keys(d, new_ps);
            let k = choose|k: int| 0 <= k < p.len() && p[k] == x;
            assert(r[k] == x);
        }
    }
}

proof fn dropped_key_is_gone(old_ps: Seq<ProviderV>, new_ps: Seq<ProviderV>, i: int)
    requires
        0 <= i < dropped_keys(old_ps, new_ps).len(),
    ensures
        dropped_keys(old_ps, new_ps)[i] matches KeyDeedV::Delete { provider } && !has_provider(
            new_ps,
            provider,
        ),
    decreases old_ps.len(),
{
    if old_ps.len() > 0 {
        let d = old_ps.drop_last();
        if i < dropped_keys(d, new_ps).len() {
            dropped_key_is_gone(d, new_ps, i);
        }
    }
}

/// Switching one plugin touches no other: every other name that was off stays off.
pub proof fn switching_one_touches_no_other(list: Seq<Seq<char>>, name: Seq<char>, other: Seq<char>)
    ensures
        !names_without(list, name).contains(name),
        other != name ==> (names_without(list, name).contains(other) <==> list.contains(other)),
    decreases list.len(),
{
    if list.len() > 0 {
        let d = list.drop_last();
        switching_one_touches_no_other(d, name, other);
        let r = names_without(list, name);
        let p = names_without(d, name);
        if list.contains(other) {
            let k = choose|k: int| 0 <= k < list.len() && list[k] == other;
            if k < d.len() {
                assert(d[k] == other);
            }
        }
        if d.contains(other) {
            let k = choose|k: int| 0 <= k < d.len() && d[k] == other;
            assert(list[k] == other);
        }
        if list.last() != name {
            assert forall|x: Seq<char>| #[trigger] r.contains(x) <==> p.contains(x) || x == list.last() by {
                if p.contains(x) {
                    let k = choose|k: int| 0 <= k < p.len() && p[k] == x;
                    assert(r[k] == x);
                }
                if x == list.last() {
                    assert(r[r.len() - 1] == x);
                }
                if r.contains(x) {
                    let k = choose|k: int| 0 <= k < r.len() && r[k] == x;
                    if k < p.len() {
                        assert(p[k] == x);
                    }
                }
            }
            assert(list[list.len() - 1] == list.last());
        }
    }
}

/// A plugin is told that it is on unless its name is among those that are off, and nothing else of
/// it changes.
pub proof fn a_plugin_is_told_whether_it_is_on(v: Seq<PluginV>, off: Seq<Seq<char>>, i: int)
    requires
        0 <= i < v.len(),
    ensures
        all_marked(v, off).len() == v.len(),
        all_marked(v, off)[i].enabled <==> !off.contains(v[i].name),
        all_marked(v, off)[i] == (PluginV { enabled: all_marked(v, off)[i].enabled, ..v[i] }),
{
}

/// What a listing says of a model is all recorded where nothing was known of it, and each thing is
/// where that was not set.
pub proof fn what_is_listed_is_recorded(m: ModelMetaV, info: ModelInfoV)
    ensures
        m.context_window is None ==> filled_in(m, info).context_window == info.context_window,
        m.reasoning is None ==> filled_in(m, info).reasoning == info.reasoning,
        m.reasoning_efforts.len() == 0 ==> filled_in(m, info).reasoning_efforts
            == info.reasoning_efforts,
        keeps_what_is_set(m, filled_in(m, info)),
        info.context_window is Some || info.reasoning is Some || info.reasoning_efforts.len() > 0 ==> (
        advertised(None, info) matches Some(n) && n.id == info.id && n.context_window
            == info.context_window && n.reasoning == info.reasoning && n.reasoning_efforts
            == info.reasoning_efforts && n.reasoning_effort is None),
        info.context_window is None && info.reasoning is None && info.reasoning_efforts.len() == 0
            ==> advertised(None, info) is None,
        advertised(Some(m), info) == Some(filled_in(m, info)),
{
}

/// Every key that a settings file still holds is handed over.
pub proof fn every_plain_key_is_handed_over(ps: Seq<ProviderV>, i: int)
    requires
        0 <= i < ps.len(),
        ps[i].api_key.len() > 0,
    ensures
        plain_keys(ps).contains(
            KeyDeedV::Save { provider: ps[i].id, key: ps[i].api_key },
        ),
    decreases ps.len(),
{
    let r = plain_keys(ps);
    let x = KeyDeedV::Save { provider: ps[i].id, key: ps[i].api_key };
    if i == ps.len() - 1 {
        assert(r[r.len() - 1] == x);
    } else {
        let d = ps.drop_last();
        every_plain_key_is_handed_over(d, i);
        let p = plain_keys(d);
        let k = choose|k: int| 0 <= k < p.len() && p[k] == x;
        assert(r[k] == x);
    }
}

/// A key that was kept comes back to its provider, unless that has one; nothing else changes. The
/// connection gets the key of the selected provider, unless it has one.
pub proof fn a_kept_key_comes_back(c: ConfigV, keys: Seq<Option<Seq<char>>>, i: int)
    requires
        keys.len() == c.providers.len(),
        0 <= i < c.providers.len(),
    ensures
        ({
            let r = unlocked(c, keys);
            &&& r.providers.len() == c.providers.len()
            &&& r.providers[i] == (ProviderV { api_key: r.providers[i].api_key, ..c.providers[i] })
            &&& c.providers[i].api_key.len() > 0 ==> r.providers[i].api_key == c.providers[i].api_key
            &&& c.providers[i].api_key.len() == 0 ==> r.providers[i].api_key == match keys[i] {
                Some(k) => k,
                None => Seq::empty(),
            }
            &&& c.api_key.len() > 0 ==> r.api_key == c.api_key
            &&& c.api_key.len() == 0 && c.providers[i].id == c.provider_id && (forall|j: int|
                0 <= j < i ==> (#[trigger] c.providers[j]).id != c.provider_id) ==> r.api_key
                == r.providers[i].api_key
            &&& r == (ConfigV { providers: r.providers, api_key: r.api_key, ..c })
        }),
{
    let r = unlocked(c, keys);
    let ps = r.providers;
    if c.providers[i].id == c.provider_id && (forall|j: int|
        0 <= j < i ==> (#[trigger] c.providers[j]).id != c.provider_id) {
        assert forall|j: int| 0 <= j < i implies (#[trigger] ps[j]).id != c.provider_id by {
            assert(ps[j].id == c.providers[j].id);
        }
        the_first_with_an_id(ps, c.provider_id, i);
    }
}

proof fn the_first_with_an_id(ps: Seq<ProviderV>, id: Seq<char>, i: int)
    requires
        0 <= i < ps.len(),
        ps[i].id == id,
        forall|j: int| 0 <= j < i ==> (#[trigger] ps[j]).id != id,
    ensures
        first_fitting(ps, None, Some(id)) == Some(ps[i]),
    decreases ps.len(),
{
    let d = ps.drop_last();
    if i < d.len() {
        assert(d[i] == ps[i]);
        the_first_with_an_id(d, id, i);
    } else {
        none_with_an_id(d, id);
    }
}

proof fn none_with_an_id(ps: Seq<ProviderV>, id: Seq<char>)
    requires
        forall|j: int| 0 <= j < ps.len() ==> (#[trigger] ps[j]).id != id,
    ensures
        first_fitting(ps, None, Some(id)) is None,
    decreases ps.len(),
{
    if ps.len() > 0 {
        assert forall|j: int| 0 <= j < ps.drop_last().len() implies (#[trigger] ps.drop_last()[j]).id
            != id by {
            assert(ps.drop_last()[j] == ps[j]);
        }
        none_with_an_id(ps.drop_last(), id);
        assert(ps.last() == ps[ps.len() - 1]);
    }
}

/// A plugin that is switched off is off, and one that is switched on is not; every other is as it
/// was.
pub proof fn a_switch_does_what_it_says(
    r: Seq<Seq<char>>,
    off: Seq<Seq<char>>,
    name: Seq<char>,
    enabled: bool,
    other: Seq<char>,
)
    requires
        switched(r, off, name, enabled),
    ensures
        r.contains(name) <==> !enabled,
        other != name ==> (r.contains(other) <==> off.contains(other)),
        !enabled ==> in_order(r),
{
    switching_one_touches_no_other(off, name, other);
    if !enabled {
        let w = names_without(off, name);
        let p = w.push(name);
        p.to_multiset_ensures();
        r.to_multiset_ensures();
        assert(p[p.len() - 1] == name);
        assert(p.contains(name));
        assert(p.to_multiset().count(name) > 0);
        assert(r.contains(name));
        assert(p.contains(other) <==> w.contains(other) || other == name) by {
            if w.contains(other) {
                let k = choose|k: int| 0 <= k < w.len() && w[k] == other;
                assert(p[k] == other);
            }
            if p.contains(other) {
                let k = choose|k: int| 0 <= k < p.len() && p[k] == other;
                if k < w.len() {
                    assert(w[k] == other);
                }
            }
        }
        assert(r.contains(other) <==> r.to_multiset().count(other) > 0);
        assert(p.contains(other) <==> p.to_multiset().count(other) > 0);
    }
}

/// A key that the environment lends to the active provider is not kept, with whatever space it was
/// given.
pub proof fn a_lent_key_is_not_kept(ps: Seq<ProviderV>, active: Seq<char>, env: Seq<char>, i: int)
    requires
        !blank(env),
        0 <= i < kept_keys(ps, active, Some(env)).len(),
    ensures
        kept_keys(ps, active, Some(env))[i] matches KeyDeedV::Save { provider, key } && !(provider
            == active && key == trim_of(env)),
{
    environment_keys_are_never_kept(ps, active, Some(env), i);
}

} // verus!
