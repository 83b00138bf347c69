//! LLM provider configuration: presets, the provider list with its default
//! model reference, and keyring-backed API keys.

use vstd::prelude::*;
use crate::errors::AppError;
use crate::secrets::{entry_delete, entry_get_password, entry_set_password, keyring_entry};
use crate::text::{chars_of, extend_chars, extend_str, string_of, trim, trim_chars};

verus! {

/// File the LLM configuration is persisted in.
pub const LLM_FILE_NAME: &'static str = "llm.json";

/// Keyring service all secrets of the app are filed under.
pub const KEYRING_SERVICE: &'static str = "shareonelist";

/// Keyring user-name prefix of provider API keys.
pub const API_KEY_PREFIX: &'static str = "llm_api_key_";

/// Wire protocol of a provider endpoint.
#[derive(Debug, Clone, Copy, PartialEq, Eq, Structural)]
pub enum LlmProviderKind {
    OpenAiCompatible,
    AzureOpenAi,
}

/// Known provider presets; they only pre-fill the configuration form.
#[derive(Debug, Clone, Copy, PartialEq, Eq, Structural)]
pub enum LlmProviderPreset {
    OpenAi,
    AzureOpenAi,
    Deepseek,
    Dashscope,
    Moonshot,
    Zhipu,
    Ollama,
    Custom,
}

pub open spec fn preset_base_url(p: LlmProviderPreset) -> Seq<char> {
    match p {
        LlmProviderPreset::OpenAi => "https://api.openai.com/v1"@,
        LlmProviderPreset::AzureOpenAi => "https://<resource-name>.openai.azure.com"@,
        LlmProviderPreset::Deepseek => "https://api.deepseek.com/v1"@,
        LlmProviderPreset::Dashscope => "https://dashscope.aliyuncs.com/compatible-mode/v1"@,
        LlmProviderPreset::Moonshot => "https://api.moonshot.cn/v1"@,
        LlmProviderPreset::Zhipu => "https://open.bigmodel.cn/api/paas/v4"@,
        LlmProviderPreset::Ollama => "http://localhost:11434/v1"@,
        LlmProviderPreset::Custom => ""@,
    }
}

impl LlmProviderPreset {
    /// Default base URL of the preset; empty for a custom provider.
    pub fn default_base_url(&self) -> (u: &'static str)
        ensures
            u@ == preset_base_url(*self),
    {
        match self {
            LlmProviderPreset::OpenAi => "https://api.openai.com/v1",
            LlmProviderPreset::AzureOpenAi => "https://<resource-name>.openai.azure.com",
            LlmProviderPreset::Deepseek => "https://api.deepseek.com/v1",
            LlmProviderPreset::Dashscope => "https://dashscope.aliyuncs.com/compatible-mode/v1",
            LlmProviderPreset::Moonshot => "https://api.moonshot.cn/v1",
            LlmProviderPreset::Zhipu => "https://open.bigmodel.cn/api/paas/v4",
            LlmProviderPreset::Ollama => "http://localhost:11434/v1",
            LlmProviderPreset::Custom => "",
        }
    }

    /// Azure speaks its own dialect; every other preset is OpenAI-compatible.
    pub fn default_kind(&self) -> (k: LlmProviderKind)
        ensures
            k == (if *self == LlmProviderPreset::AzureOpenAi {
                LlmProviderKind::AzureOpenAi
            } else {
                LlmProviderKind::OpenAiCompatible
            }),
    {
        match self {
            LlmProviderPreset::AzureOpenAi => LlmProviderKind::AzureOpenAi,
            _ => LlmProviderKind::OpenAiCompatible,
        }
    }

    /// The API version Azure deployments default to; none elsewhere.
    pub fn default_api_version(&self) -> (v: Option<&'static str>)
        ensures
            match v {
                Some(s) => *self == LlmProviderPreset::AzureOpenAi && s@ == "2024-10-21"@,
                None => *self != LlmProviderPreset::AzureOpenAi,
            },
    {
        match self {
            LlmProviderPreset::AzureOpenAi => Some("2024-10-21"),
            _ => None,
        }
    }
}

/// A model exposed by a provider; `model_id` is the wire identifier
/// (for Azure the deployment name).
#[derive(Debug, Clone)]
pub struct LlmModelConfig {
    pub id: String,
    pub model_id: String,
    pub display_name: String,
}

/// Reference to a model of a provider.
#[derive(Debug, Clone)]
pub struct LlmModelRef {
    pub provider_id: String,
    pub model_id: String,
}

/// A configured provider. The API key never lives here; `has_api_key`
/// reflects the keyring when the configuration is loaded.
#[derive(Debug, Clone)]
pub struct LlmProviderConfig {
    pub id: String,
    pub name: String,
    pub preset: LlmProviderPreset,
    pub kind: LlmProviderKind,
    pub base_url: String,
    pub api_version: Option<String>,
    pub models: Vec<LlmModelConfig>,
    pub has_api_key: bool,
}

/// Root of `llm.json`.
#[derive(Debug, Clone)]
pub struct LlmConfig {
    pub providers: Vec<LlmProviderConfig>,
    pub default_model: Option<LlmModelRef>,
}

/// Index of the first provider with the id.
pub open spec fn provider_index(ps: Seq<LlmProviderConfig>, id: Seq<char>) -> Option<int> {
    if exists|i: int| 0 <= i < ps.len() && #[trigger] ps[i].id@ == id {
        Some(
            choose|i: int|
                0 <= i < ps.len() && #[trigger] ps[i].id@ == id && forall|j: int|
                    0 <= j < i ==> #[trigger] ps[j].id@ != id,
        )
    } else {
        None
    }
}

/// Whether a provider offers the model id.
pub open spec fn offers_model(p: LlmProviderConfig, model_id: Seq<char>) -> bool {
    exists|j: int| 0 <= j < p.models@.len() && #[trigger] p.models@[j].model_id@ == model_id
}

/// The default model reference points at an existing provider model (or
/// there is none).
pub open spec fn default_is_valid(ps: Seq<LlmProviderConfig>, d: Option<LlmModelRef>) -> bool {
    match d {
        None => true,
        Some(r) => match provider_index(ps, r.provider_id@) {
            Some(i) => offers_model(ps[i], r.model_id@),
            None => false,
        },
    }
}

proof fn lemma_first_index(ps: Seq<LlmProviderConfig>, id: Seq<char>, i: int)
    requires
        0 <= i < ps.len(),
        ps[i].id@ == id,
        forall|j: int| 0 <= j < i ==> #[trigger] ps[j].id@ != id,
    ensures
        provider_index(ps, id) == Some(i),
{
    let k = choose|k: int|
        0 <= k < ps.len() && #[trigger] ps[k].id@ == id && forall|j: int|
            0 <= j < k ==> #[trigger] ps[j].id@ != id;
    if k < i {
        assert(ps[k].id@ != id);
    } else if k > i {
        assert(ps[i].id@ != id);
    }
}

fn find_provider(ps: &Vec<LlmProviderConfig>, id: &str) -> (r: Option<usize>)
    ensures
        match r {
            Some(i) => i < ps@.len() && provider_index(ps@, id@) == Some(i as int),
            None => provider_index(ps@, id@) is None,
        },
{
    let key = id.to_owned();
    let mut i: usize = 0;
    while i < ps.len()
        invariant
            i <= ps@.len(),
            key@ == id@,
            forall|j: int| 0 <= j < i ==> #[trigger] ps@[j].id@ != id@,
        decreases ps.len() - i,
    {
        if ps[i].id == key {
            proof {
                lemma_first_index(ps@, id@, i as int);
            }
            return Some(i);
        }
        i = i + 1;
    }
    None
}

fn has_model(p: &LlmProviderConfig, model_id: &String) -> (r: bool)
    ensures
        r == offers_model(*p, model_id@),
{
    let mut j: usize = 0;
    while j < p.models.len()
        invariant
            j <= p.models@.len(),
            forall|k: int| 0 <= k < j ==> #[trigger] p.models@[k].model_id@ != model_id@,
        decreases p.models.len() - j,
    {
        if p.models[j].model_id == *model_id {
            return true;
        }
        j = j + 1;
    }
    false
}

impl LlmConfig {
    /// No providers and no default model.
    pub fn empty() -> (c: LlmConfig)
        ensures
            c.providers@.len() == 0,
            c.default_model is None,
    {
        LlmConfig { providers: Vec::new(), default_model: None }
    }

    /// The first provider with the id.
    pub fn provider(&self, provider_id: &str) -> (r: Option<&LlmProviderConfig>)
        ensures
            match r {
                Some(p) => exists|i: int|
                    provider_index(self.providers@, provider_id@) == Some(i) && *p
                        == self.providers@[i],
                None => provider_index(self.providers@, provider_id@) is None,
            },
    {
        match find_provider(&self.providers, provider_id) {
            Some(i) => Some(&self.providers[i]),
            None => None,
        }
    }

    /// True when the default reference points at an existing provider model.
    pub fn default_model_is_valid(&self) -> (b: bool)
        ensures
            b == default_is_valid(self.providers@, self.default_model),
    {
        match &self.default_model {
            None => true,
            Some(reference) => match find_provider(&self.providers, reference.provider_id.as_str()) {
                Some(i) => has_model(&self.providers[i], &reference.model_id),
                None => false,
            },
        }
    }
}

impl Default for LlmConfig {
    fn default() -> (c: LlmConfig)
        ensures
            c.providers@.len() == 0,
            c.default_model is None,
    {
        LlmConfig::empty()
    }
}

/// Keyring user name of a provider's API key.
pub open spec fn api_key_user(provider_id: Seq<char>) -> Seq<char> {
    "llm_api_key_"@ + provider_id
}

/// The preview of a key shown in the UI, such as `sk-…abcd`: the key's
/// first three characters (only for keys of more than seven, so that the
/// preview never shows a whole key), `…`, and its last four characters.
pub open spec fn masked_key(key: Seq<char>) -> Seq<char> {
    (if key.len() > 7 {
        key.subrange(0, 3)
    } else {
        Seq::empty()
    }) + seq!['\u{2026}'] + if key.len() <= 4 {
        key
    } else {
        key.subrange(key.len() - 4, key.len() as int)
    }
}

/// Manages `llm.json` persistence and keyring-backed API keys.
#[derive(Debug, Clone)]
pub struct LlmConfigManager {
    pub dir: String,
    pub file_name: String,
}

impl LlmConfigManager {
    /// The manager for the configuration directory `base_path`.
    pub fn new(base_path: &str) -> (m: LlmConfigManager)
        ensures
            m.dir@ == base_path@,
            m.file_name@ == LLM_FILE_NAME@,
    {
        LlmConfigManager { dir: base_path.to_owned(), file_name: LLM_FILE_NAME.to_owned() }
    }

    /// The path of `llm.json`.
    pub fn config_path(&self) -> (r: String)
        ensures
            r@ == crate::download::joined_path(self.dir@, self.file_name@),
    {
        crate::download::join_path(self.dir.as_str(), self.file_name.as_str())
    }

    /// The keyring user name of a provider's key (see `api_key_user`).
    pub fn api_key_user(&self, provider_id: &str) -> (u: String)
        ensures
            u@ == api_key_user(provider_id@),
    {
        let mut out: Vec<char> = Vec::new();
        extend_str(&mut out, API_KEY_PREFIX);
        extend_str(&mut out, provider_id);
        proof {
            reveal_strlit("llm_api_key_");
        }
        string_of(out.as_slice())
    }

    /// Store (or overwrite) the API key of a provider, under the keyring
    /// user `api_key_user(provider_id)`. Whether the credential store takes
    /// it is the store's; what each of its answers gives is
    /// `api_key_store_outcome`.
    pub fn store_api_key(&self, provider_id: &str, api_key: &str) -> (r: Result<(), AppError>)
        ensures
            r matches Err(e) ==> e matches AppError::Config { message } && (message@
                == "keyring unavailable"@ || exists|t: Seq<char>| message@ == "failed to store API key: "@ + t),
    {
        let user = self.api_key_user(provider_id);
        let answer = match keyring_entry(KEYRING_SERVICE, user.as_str()) {
            Err(_) => None,
            Ok(entry) => Some(entry_set_password(&entry, api_key)),
        };
        api_key_store_outcome(answer)
    }

    /// The full API key of a provider (backend use only), read from the
    /// keyring user `api_key_user(provider_id)`; an empty stored key counts
    /// as none (see `usable_key`).
    pub fn load_api_key(&self, provider_id: &str) -> (r: Option<String>)
        ensures
            r matches Some(k) ==> k@.len() > 0,
    {
        let user = self.api_key_user(provider_id);
        let stored = match keyring_entry(KEYRING_SERVICE, user.as_str()) {
            Err(_) => None,
            Ok(entry) => entry_get_password(&entry),
        };
        usable_key(stored)
    }

    /// Remove the stored API key; a missing entry is fine.
    pub fn delete_api_key(&self, provider_id: &str) {
        let user = self.api_key_user(provider_id);
        match keyring_entry(KEYRING_SERVICE, user.as_str()) {
            Ok(entry) => {
                let _ = entry_delete(&entry);
            },
            Err(_) => {},
        }
    }

    /// Masked key preview for the UI of the key `load_api_key` reads (see
    /// `masked_preview`); none when unset.
    pub fn masked_api_key(&self, provider_id: &str) -> (r: Option<String>)
        ensures
            r matches Some(m) ==> exists|k: Seq<char>| k.len() > 0 && m@ == masked_key(k),
    {
        let key = self.load_api_key(provider_id);
        masked_preview(key)
    }

    /// The configuration as loaded: `parsed` is the content of `llm.json`
    /// where it exists and is valid; each provider's `has_api_key` is read
    /// from the keyring, and a default reference that points nowhere is
    /// dropped.
    pub fn load_from(&self, parsed: Option<LlmConfig>) -> (c: LlmConfig)
        ensures
            match parsed {
                Some(p) => {
                    &&& c.providers@.len() == p.providers@.len()
                    &&& forall|i: int|
                        0 <= i < c.providers@.len() ==> #[trigger] c.providers@[i]
                            == (LlmProviderConfig {
                            has_api_key: c.providers@[i].has_api_key,
                            ..p.providers@[i]
                        })
                    &&& c.default_model == if default_is_valid(
                        c.providers@,
                        p.default_model,
                    ) {
                        p.default_model
                    } else {
                        None
                    }
                },
                None => c.providers@.len() == 0 && c.default_model is None,
            },
            default_is_valid(c.providers@, c.default_model),
    {
        let mut config = match parsed {
            Some(p) => p,
            None => LlmConfig::empty(),
        };
        let ghost start = config;
        let mut providers: Vec<LlmProviderConfig> = Vec::new();
        let mut src: Vec<LlmProviderConfig> = Vec::new();
        std::mem::swap(&mut src, &mut config.providers);
        let ghost orig = src@;
        assert(orig.len() == src.len());
        let mut i: usize = 0;
        while src.len() > 0
            invariant
                i + src@.len() == orig.len(),
                orig.len() <= usize::MAX,
                src@ == orig.skip(i as int),
                providers@.len() == i,
                forall|q: int|
                    0 <= q < i ==> #[trigger] providers@[q] == (LlmProviderConfig {
                        has_api_key: providers@[q].has_api_key,
                        ..orig[q]
                    }),
            decreases src.len(),
        {
            let mut p = src.remove(0);
            proof {
                assert(orig[i as int] == p);
                assert(src@ =~= orig.skip(i + 1));
            }
            p.has_api_key = self.load_api_key(p.id.as_str()).is_some();
            providers.push(p);
            i = i + 1;
        }
        config.providers = providers;
        if !config.default_model_is_valid() {
            config.default_model = None;
        }
        config
    }

    /// Checks a configuration before it is written: the default reference
    /// must point at an existing model. Returns the configuration to store,
    /// with each `has_api_key` recomputed from the keyring.
    pub fn prepare_save(&self, config: &LlmConfig) -> (r: Result<LlmConfig, AppError>)
        ensures
            match r {
                Ok(c) => default_is_valid(config.providers@, config.default_model)
                    && c.providers@.len() == config.providers@.len() && c.default_model
                    == config.default_model,
                Err(e) => {
                    &&& !default_is_valid(config.providers@, config.default_model)
                    &&& e matches AppError::Validation { message, field }
                    &&& message@ == "default model reference does not point to an existing model"@
                    &&& field@ == "defaultModel"@
                },
            },
    {
        if !config.default_model_is_valid() {
            return Err(
                AppError::Validation {
                    message: "default model reference does not point to an existing model".to_owned(),
                    field: "defaultModel".to_owned(),
                },
            );
        }
        let mut providers: Vec<LlmProviderConfig> = Vec::new();
        let mut i: usize = 0;
        while i < config.providers.len()
            invariant
                i <= config.providers@.len(),
                providers@.len() == i,
            decreases config.providers.len() - i,
        {
            let mut p = copy_provider(&config.providers[i]);
            p.has_api_key = self.load_api_key(p.id.as_str()).is_some();
            providers.push(p);
            i = i + 1;
        }
        Ok(LlmConfig { providers, default_model: copy_ref(&config.default_model) })
    }
}

/// The UI preview of `key` (see `masked_key`).
pub fn mask_key(key: &str) -> (m: String)
    ensures
        m@ == masked_key(key@),
{
    let v = chars_of(key);
    let start = if v.len() <= 4 {
        0
    } else {
        v.len() - 4
    };
    let mut out: Vec<char> = Vec::new();
    if v.len() > 7 {
        let head = crate::text::slice_chars(v.as_slice(), 0, 3);
        extend_chars(&mut out, head.as_slice());
    }
    out.push('\u{2026}');
    let tail = crate::text::slice_chars(v.as_slice(), start, v.len());
    extend_chars(&mut out, tail.as_slice());
    proof {
        if v.len() <= 4 {
            assert(v@.subrange(0, v@.len() as int) =~= v@);
        }
        assert(out@ =~= masked_key(key@));
    }
    string_of(out.as_slice())
}

fn copy_opt_string(o: &Option<String>) -> (r: Option<String>)
    ensures
        r == *o,
{
    match o {
        Some(s) => Some(s.clone()),
        None => None,
    }
}

fn copy_model(m: &LlmModelConfig) -> (r: LlmModelConfig)
    ensures
        r == *m,
{
    LlmModelConfig { id: m.id.clone(), model_id: m.model_id.clone(), display_name: m.display_name.clone() }
}

fn copy_ref(r: &Option<LlmModelRef>) -> (out: Option<LlmModelRef>)
    ensures
        out == *r,
{
    match r {
        Some(m) => Some(LlmModelRef { provider_id: m.provider_id.clone(), model_id: m.model_id.clone() }),
        None => None,
    }
}

/// A copy of a provider: the same fields, the same models.
pub fn copy_provider(p: &LlmProviderConfig) -> (r: LlmProviderConfig)
    ensures
        r.id == p.id,
        r.name == p.name,
        r.preset == p.preset,
        r.kind == p.kind,
        r.base_url == p.base_url,
        r.api_version == p.api_version,
        r.models@ == p.models@,
        r.has_api_key == p.has_api_key,
{
    let mut models: Vec<LlmModelConfig> = Vec::new();
    let mut i: usize = 0;
    while i < p.models.len()
        invariant
            i <= p.models@.len(),
            models@ == p.models@.take(i as int),
        decreases p.models.len() - i,
    {
        models.push(copy_model(&p.models[i]));
        proof {
            assert(models@ =~= p.models@.take(i + 1));
        }
        i = i + 1;
    }
    proof {
        assert(p.models@.take(p.models@.len() as int) =~= p.models@);
    }
    LlmProviderConfig {
        id: p.id.clone(),
        name: p.name.clone(),
        preset: p.preset,
        kind: p.kind,
        base_url: p.base_url.clone(),
        api_version: copy_opt_string(&p.api_version),
        models,
        has_api_key: p.has_api_key,
    }
}

// ── Editing the provider list ───────────────────────────────────────────

/// The configuration with masked key previews, for the UI.
#[derive(Debug, Clone)]
pub struct LlmConfigSnapshot {
    pub config: LlmConfig,
    /// Provider id and masked key, for each provider with a stored key.
    pub masked_keys: Vec<(String, String)>,
}

/// Why a provider form is refused, if it is: a name and a base URL that
/// are not blank, at least one model, and no blank model id.
pub open spec fn provider_problem(p: LlmProviderConfig) -> Option<(Seq<char>, Seq<char>)> {
    if trim(p.name@).len() == 0 {
        Some(("provider name is required"@, "name"@))
    } else if trim(p.base_url@).len() == 0 {
        Some(("base URL is required"@, "baseUrl"@))
    } else if p.models@.len() == 0 {
        Some(("at least one model is required"@, "models"@))
    } else if exists|j: int| 0 <= j < p.models@.len() && trim(#[trigger] p.models@[j].model_id@).len() == 0 {
        Some(("model id must not be empty"@, "models"@))
    } else {
        None
    }
}

fn validation(message: &str, field: &str) -> (e: AppError)
    ensures
        e matches AppError::Validation { message: m, field: f } && m@ == message@ && f@ == field@,
{
    AppError::Validation { message: message.to_owned(), field: field.to_owned() }
}

/// Checks a provider form (see `provider_problem`).
pub fn validate_provider(provider: &LlmProviderConfig) -> (r: Result<(), AppError>)
    ensures
        match provider_problem(*provider) {
            None => r is Ok,
            Some((m, f)) => r matches Err(AppError::Validation { message, field }) && message@ == m
                && field@ == f,
        },
{
    let name = chars_of(provider.name.as_str());
    if trim_chars(name.as_slice()).len() == 0 {
        return Err(validation("provider name is required", "name"));
    }
    let url = chars_of(provider.base_url.as_str());
    if trim_chars(url.as_slice()).len() == 0 {
        return Err(validation("base URL is required", "baseUrl"));
    }
    if provider.models.len() == 0 {
        return Err(validation("at least one model is required", "models"));
    }
    let mut j: usize = 0;
    while j < provider.models.len()
        invariant
            j <= provider.models@.len(),
            trim(provider.name@).len() != 0,
            trim(provider.base_url@).len() != 0,
            provider.models@.len() > 0,
            forall|k: int| 0 <= k < j ==> trim(#[trigger] provider.models@[k].model_id@).len() != 0,
        decreases provider.models.len() - j,
    {
        let mid = chars_of(provider.models[j].model_id.as_str());
        if trim_chars(mid.as_slice()).len() == 0 {
            return Err(validation("model id must not be empty", "models"));
        }
        j = j + 1;
    }
    Ok(())
}

impl LlmConfig {
    /// Replaces every provider with the same id by `provider` (appended at
    /// the end); when there is no default model yet, the first model of the
    /// new provider becomes the default.
    pub fn upsert_provider(&mut self, provider: LlmProviderConfig)
        ensures
            final(self).providers@ == old(self).providers@.filter(
                |p: LlmProviderConfig| p.id@ != provider.id@,
            ).push(provider),
            final(self).default_model == match old(self).default_model {
                Some(d) => Some(d),
                None => if provider.models@.len() > 0 {
                    Some(
                        (LlmModelRef {
                            provider_id: provider.id,
                            model_id: provider.models@[0].model_id,
                        }),
                    )
                } else {
                    None
                },
            },
    {
        let ghost orig = self.providers@;
        assert(orig.len() == self.providers.len());
        let ghost f = |p: LlmProviderConfig| p.id@ != provider.id@;
        let mut kept: Vec<LlmProviderConfig> = Vec::new();
        let mut src: Vec<LlmProviderConfig> = Vec::new();
        std::mem::swap(&mut src, &mut self.providers);
        let mut i: usize = 0;
        while src.len() > 0
            invariant
                f == (|p: LlmProviderConfig| p.id@ != provider.id@),
                i + src@.len() == orig.len(),
                orig.len() <= usize::MAX,
                src@ == orig.skip(i as int),
                kept@ == orig.take(i as int).filter(f),
            decreases src.len(),
        {
            let p = src.remove(0);
            proof {
                assert(orig[i as int] == p);
                assert(orig.take(i + 1).drop_last() =~= orig.take(i as int));
                reveal(Seq::filter);
                assert(orig.take(i + 1).last() == p);
                assert(src@ =~= orig.skip(i + 1));
            }
            if p.id != provider.id {
                kept.push(p);
            }
            i = i + 1;
        }
        proof {
            assert(orig.take(i as int) =~= orig);
        }
        let first = if provider.models.len() > 0 {
            Some(LlmModelRef {
                provider_id: provider.id.clone(),
                model_id: provider.models[0].model_id.clone(),
            })
        } else {
            None
        };
        kept.push(provider);
        self.providers = kept;
        if self.default_model.is_none() {
            self.default_model = first;
        }
    }

    /// Removes a provider, refusing the one that holds the default model.
    pub fn remove_provider(&mut self, provider_id: &str) -> (r: Result<(), AppError>)
        ensures
            match old(self).default_model {
                Some(d) if d.provider_id@ == provider_id@ => {
                    &&& r matches Err(AppError::Validation { message, field })
                    &&& message@ == "cannot delete the provider that holds the default model"@
                    &&& field@ == "defaultModel"@
                    &&& *final(self) == *old(self)
                },
                _ => {
                    &&& r is Ok
                    &&& final(self).providers@ == old(self).providers@.filter(
                        |p: LlmProviderConfig| p.id@ != provider_id@,
                    )
                    &&& final(self).default_model == old(self).default_model
                },
            },
    {
        let key = provider_id.to_owned();
        match &self.default_model {
            Some(d) => {
                if d.provider_id == key {
                    return Err(validation(
                        "cannot delete the provider that holds the default model",
                        "defaultModel",
                    ));
                }
            },
            None => {},
        }
        let ghost orig = self.providers@;
        assert(orig.len() == self.providers.len());
        let ghost f = |p: LlmProviderConfig| p.id@ != provider_id@;
        let mut kept: Vec<LlmProviderConfig> = Vec::new();
        let mut src: Vec<LlmProviderConfig> = Vec::new();
        std::mem::swap(&mut src, &mut self.providers);
        let mut i: usize = 0;
        while src.len() > 0
            invariant
                f == (|p: LlmProviderConfig| p.id@ != provider_id@),
                key@ == provider_id@,
                i + src@.len() == orig.len(),
                orig.len() <= usize::MAX,
                src@ == orig.skip(i as int),
                kept@ == orig.take(i as int).filter(f),
            decreases src.len(),
        {
            let p = src.remove(0);
            proof {
                assert(orig[i as int] == p);
                assert(orig.take(i + 1).drop_last() =~= orig.take(i as int));
                reveal(Seq::filter);
                assert(orig.take(i + 1).last() == p);
                assert(src@ =~= orig.skip(i + 1));
            }
            if p.id != key {
                kept.push(p);
            }
            i = i + 1;
        }
        proof {
            assert(orig.take(i as int) =~= orig);
        }
        self.providers = kept;
        Ok(())
    }

    /// Sets the default model after checking the provider offers it.
    pub fn set_default_model(&mut self, provider_id: String, model_id: String) -> (r: Result<(), AppError>)
        ensures
            match provider_index(old(self).providers@, provider_id@) {
                None => r matches Err(AppError::Validation { message, field })
                    && message@ == "provider not found"@ && field@ == "providerId"@
                    && *final(self) == *old(self),
                Some(i) => if offers_model(old(self).providers@[i], model_id@) {
                    r is Ok && final(self).providers == old(self).providers
                        && final(self).default_model == Some(
                        (LlmModelRef { provider_id, model_id }),
                    )
                } else {
                    r matches Err(AppError::Validation { message, field })
                        && message@ == "model not found on provider"@ && field@ == "modelId"@
                        && *final(self) == *old(self)
                },
            },
    {
        match find_provider(&self.providers, provider_id.as_str()) {
            None => Err(validation("provider not found", "providerId")),
            Some(i) => {
                if !has_model(&self.providers[i], &model_id) {
                    return Err(validation("model not found on provider", "modelId"));
                }
                self.default_model = Some(LlmModelRef { provider_id, model_id });
                Ok(())
            },
        }
    }
}

/// Whether some provider has the id.
pub open spec fn has_provider_id(ps: Seq<LlmProviderConfig>, id: Seq<char>) -> bool {
    exists|j: int| 0 <= j < ps.len() && #[trigger] ps[j].id@ == id
}

/// The configuration with the masked key of each provider that has one.
pub fn snapshot(manager: &LlmConfigManager, config: LlmConfig) -> (snap: LlmConfigSnapshot)
    ensures
        snap.config == config,
        forall|i: int|
            0 <= i < snap.masked_keys@.len() ==> has_provider_id(
                config.providers@,
                (#[trigger] snap.masked_keys@[i]).0@,
            ),
{
    let mut masked: Vec<(String, String)> = Vec::new();
    let mut i: usize = 0;
    while i < config.providers.len()
        invariant
            i <= config.providers@.len(),
            forall|q: int|
                0 <= q < masked@.len() ==> has_provider_id(
                    config.providers@,
                    (#[trigger] masked@[q]).0@,
                ),
        decreases config.providers.len() - i,
    {
        match manager.masked_api_key(config.providers[i].id.as_str()) {
            Some(m) => {
                let id = config.providers[i].id.clone();
                let ghost before = masked@;
                masked.push((id, m));
                proof {
                    assert forall|q: int| 0 <= q < masked@.len() implies has_provider_id(
                        config.providers@,
                        (#[trigger] masked@[q]).0@,
                    ) by {
                        if q == masked@.len() - 1 {
                            assert(masked@[q].0@ == config.providers@[i as int].id@);
                        } else {
                            assert(masked@[q] == before[q]);
                        }
                    }
                }
            },
            None => {},
        }
        i = i + 1;
    }
    LlmConfigSnapshot { config, masked_keys: masked }
}

// ── Answers of the credential store ─────────────────────────────────────

/// What storing an API key gives for the credential store's answer: `None`
/// where no keyring entry could be made, else the answer of setting the
/// password, its failure reported as a configuration error.
pub fn api_key_store_outcome(answer: Option<Result<(), String>>) -> (r: Result<(), AppError>)
    ensures
        match answer {
            None => r matches Err(AppError::Config { message }) && message@ == "keyring unavailable"@,
            Some(Ok(())) => r is Ok,
            Some(Err(e)) => r matches Err(AppError::Config { message }) && message@
                == "failed to store API key: "@ + e@,
        },
{
    match answer {
        None => Err(AppError::Config { message: string_of(chars_of("keyring unavailable").as_slice()) }),
        Some(Ok(())) => Ok(()),
        Some(Err(e)) => {
            let mut m: Vec<char> = Vec::new();
            extend_str(&mut m, "failed to store API key: ");
            extend_str(&mut m, e.as_str());
            Err(AppError::Config { message: string_of(m.as_slice()) })
        },
    }
}

/// The API key a stored password gives: the password where there is one
/// and it is not empty, else none.
pub fn usable_key(stored: Option<String>) -> (r: Option<String>)
    ensures
        match stored {
            Some(k) => if k@.len() > 0 {
                r == Some(k)
            } else {
                r is None
            },
            None => r is None,
        },
{
    match stored {
        Some(k) => {
            let v = chars_of(k.as_str());
            if v.len() > 0 {
                Some(k)
            } else {
                None
            }
        },
        None => None,
    }
}

/// The preview shown for a key: its masked form (see `masked_key`), none
/// without a key.
pub fn masked_preview(key: Option<String>) -> (r: Option<String>)
    ensures
        match key {
            Some(k) => r matches Some(m) && m@ == masked_key(k@),
            None => r is None,
        },
{
    match key {
        None => None,
        Some(k) => Some(mask_key(k.as_str())),
    }
}

} // verus!
