//! Agent back-end configuration: kinds, defaults, the built-in provider
//! presets, and which saved model serves the title and compression roles.

use vstd::prelude::*;
use crate::text::{chars_of, trim, trim_chars};

verus! {

/// Which back end answers.
#[derive(Debug, Clone, Copy, PartialEq, Eq, Structural)]
pub enum BackendKind {
    /// Offline mock (the default).
    Mock,
    /// An OpenAI-compatible chat-completions service.
    Openai,
}

impl Default for BackendKind {
    fn default() -> (r: BackendKind)
        ensures
            r == BackendKind::Mock,
    {
        BackendKind::Mock
    }
}

/// What a model does.
#[derive(Debug, Clone, Copy, PartialEq, Eq, Structural)]
pub enum ModelKind {
    /// Chat (the default).
    Chat,
    ImageGen,
    VideoGen,
    AudioTranscribe,
}

impl Default for ModelKind {
    fn default() -> (r: ModelKind)
        ensures
            r == ModelKind::Chat,
    {
        ModelKind::Chat
    }
}

/// Colour scheme.
#[derive(Debug, Clone, Copy, PartialEq, Eq, Structural)]
pub enum ThemeMode {
    /// Follow the system (the default).
    System,
    Light,
    Dark,
}

impl Default for ThemeMode {
    fn default() -> (r: ThemeMode)
        ensures
            r == ThemeMode::System,
    {
        ThemeMode::System
    }
}

/// Speech-recognition service.
#[derive(Debug, Clone, Copy, PartialEq, Eq, Structural)]
pub enum AsrProvider {
    VolcEngine,
    Qwen,
}

/// Speech-recognition credentials and behaviour.
#[derive(Debug, Clone)]
pub struct AsrConfig {
    pub volc_app_id: String,
    pub volc_access_token: String,
    pub volc_cluster: String,
    pub qwen_api_key: String,
    pub qwen_base_url: String,
    pub qwen_audio_model: String,
    pub default_language: String,
    /// Model for summaries; `None` uses the active chat model.
    pub summary_model: Option<String>,
    pub provider: AsrProvider,
    /// Summarise automatically once a transcription is done.
    pub enable_auto_summary: bool,
}

impl Default for AsrConfig {
    fn default() -> (r: AsrConfig)
        ensures
            r.volc_app_id@.len() == 0,
            r.volc_access_token@.len() == 0,
            r.volc_cluster@ == "volcengine_streaming_common"@,
            r.qwen_api_key@.len() == 0,
            r.qwen_base_url@ == "https://dashscope.aliyuncs.com/compatible-mode/v1"@,
            r.qwen_audio_model@ == "qwen-audio-asr"@,
            r.default_language@ == "zh-CN"@,
            r.summary_model is None,
            r.provider == AsrProvider::VolcEngine,
            r.enable_auto_summary,
    {
        AsrConfig {
            volc_app_id: String::new(),
            volc_access_token: String::new(),
            volc_cluster: "volcengine_streaming_common".to_string(),
            qwen_api_key: String::new(),
            qwen_base_url: "https://dashscope.aliyuncs.com/compatible-mode/v1".to_string(),
            qwen_audio_model: "qwen-audio-asr".to_string(),
            default_language: "zh-CN".to_string(),
            summary_model: None,
            provider: AsrProvider::VolcEngine,
            enable_auto_summary: true,
        }
    }
}

/// How conversation history is compressed.
#[derive(Debug, Clone)]
pub struct CompressionSettings {
    /// Share of the context window (1 to 100) at which compression starts.
    pub threshold_percent: u32,
    pub auto_compress: bool,
    pub compress_tool_calls: bool,
    pub compress_sentences: bool,
}

/// Default compression threshold, in percent.
pub fn default_compress_threshold() -> (r: u32)
    ensures
        r == 80,
{
    80
}

impl Default for CompressionSettings {
    fn default() -> (r: CompressionSettings)
        ensures
            r.threshold_percent == 80,
            r.auto_compress,
            r.compress_tool_calls,
            r.compress_sentences,
    {
        CompressionSettings {
            threshold_percent: default_compress_threshold(),
            auto_compress: true,
            compress_tool_calls: true,
            compress_sentences: true,
        }
    }
}

/// A model the user saved, as the role resolution reads it.
#[derive(Debug, Clone)]
pub struct AvailableModel {
    pub id: String,
    pub label: String,
    pub provider_id: String,
    pub base_url: String,
    pub model_name: String,
    pub api_key: String,
    pub preamble: String,
    pub image_size: Option<String>,
    pub image_quality: Option<String>,
    pub video_resolution: Option<String>,
    pub video_ratio: Option<String>,
    pub audio_language: Option<String>,
    pub context_window_tokens: Option<u32>,
    pub video_duration: Option<u32>,
    pub created_at: u64,
    pub enable_tools: bool,
    pub kind: ModelKind,
}

/// The agent configuration.
#[derive(Debug, Clone)]
pub struct AgentConfig {
    pub api_key: String,
    pub base_url: String,
    pub model_name: String,
    pub preamble: String,
    pub provider_id: String,
    pub models: Vec<AvailableModel>,
    pub active_model_id: Option<String>,
    pub active_image_gen_model_id: Option<String>,
    /// Model that names conversations; falls back to the active model.
    pub title_model_id: Option<String>,
    /// Model that compresses history; falls back to the active model.
    pub compression_model_id: Option<String>,
    pub asr_stream_model_id: Option<String>,
    pub asr_transcribe_model_id: Option<String>,
    pub asr_config: AsrConfig,
    pub compression_settings: CompressionSettings,
    pub backend: BackendKind,
    pub enable_tools: bool,
    pub theme: ThemeMode,
}

impl Default for AgentConfig {
    fn default() -> (r: AgentConfig)
        ensures
            r.api_key@.len() == 0,
            r.base_url@.len() == 0,
            r.model_name@ == "gpt-4o-mini"@,
            r.preamble@ == DEFAULT_PREAMBLE@,
            r.provider_id@ == "openai"@,
            r.models@.len() == 0,
            r.active_model_id is None,
            r.active_image_gen_model_id is None,
            r.title_model_id is None,
            r.compression_model_id is None,
            r.asr_stream_model_id is None,
            r.asr_transcribe_model_id is None,
            r.asr_config.provider == AsrProvider::VolcEngine,
            r.compression_settings.threshold_percent == 80,
            r.backend == BackendKind::Mock,
            r.enable_tools,
            r.theme == ThemeMode::System,
    {
        AgentConfig {
            api_key: String::new(),
            base_url: String::new(),
            model_name: "gpt-4o-mini".to_string(),
            preamble: DEFAULT_PREAMBLE.to_string(),
            provider_id: "openai".to_string(),
            models: Vec::new(),
            active_model_id: None,
            active_image_gen_model_id: None,
            title_model_id: None,
            compression_model_id: None,
            asr_stream_model_id: None,
            asr_transcribe_model_id: None,
            asr_config: AsrConfig::default(),
            compression_settings: CompressionSettings::default(),
            backend: BackendKind::Mock,
            enable_tools: true,
            theme: ThemeMode::System,
        }
    }
}

/// The default system prompt.
pub const DEFAULT_PREAMBLE: &'static str = "你是 EffiSuite 的 AI 助手。遵守以下准则：\n【回答】简短直接，不重复用户问题，不堆砌铺垫与废话。\n【执行】调用工具前，先用 1-3 句话简述最优实现路径（含关键步骤/文件/技术选型），再发起工具调用。\n【澄清】当任务目标不明确、用户意图模糊、或修改方向过多（≥2 个互斥方向）时，必须先调用 ask_user 工具向用户提问澄清，而非猜测执行。选项要具体可执行，包含明确取舍维度。用户明确后再行动，避免连环追问。\n【原则】优先最短路径，避免试错；工具失败时给出明确下一步，不空谈。";

/// Position of the first saved model with id `id`.
pub open spec fn model_index(models: Seq<AvailableModel>, id: Seq<char>, from: int) -> Option<int>
    decreases models.len() - from,
{
    if from < 0 || from >= models.len() {
        None
    } else if models[from].id@ == id {
        Some(from)
    } else {
        model_index(models, id, from + 1)
    }
}

/// The saved model a role uses: the one its own id names, else the one the
/// active id names, else none.
pub open spec fn role_model(models: Seq<AvailableModel>, role_id: Option<String>, active_id: Option<String>) -> Option<int> {
    let own = match role_id {
        Some(id) => model_index(models, id@, 0),
        None => None,
    };
    match own {
        Some(i) => Some(i),
        None => match active_id {
            Some(id) => model_index(models, id@, 0),
            None => None,
        },
    }
}

/// The `(api_key, base_url, model_name)` a role resolves to: its model's, or
/// the inline configuration's when no saved model applies.
pub open spec fn resolved_triple(c: AgentConfig, role_id: Option<String>) -> (Seq<char>, Seq<char>, Seq<char>) {
    match role_model(c.models@, role_id, c.active_model_id) {
        Some(i) => (c.models@[i].api_key@, c.models@[i].base_url@, c.models@[i].model_name@),
        None => (c.api_key@, c.base_url@, c.model_name@),
    }
}

fn find_model(models: &Vec<AvailableModel>, id: &String) -> (r: Option<usize>)
    ensures
        r matches Some(i) ==> i < models.len() && model_index(models@, id@, 0) == Some(i as int),
        r is None ==> model_index(models@, id@, 0) is None,
{
    let mut i: usize = 0;
    while i < models.len()
        invariant
            i <= models.len(),
            model_index(models@, id@, 0) == model_index(models@, id@, i as int),
        decreases models.len() - i,
    {
        if models[i].id == *id {
            return Some(i);
        }
        i = i + 1;
    }
    None
}

fn pick_model(models: &Vec<AvailableModel>, role_id: &Option<String>, active_id: &Option<String>) -> (r: Option<usize>)
    ensures
        r matches Some(i) ==> i < models.len() && role_model(models@, *role_id, *active_id)
            == Some(i as int),
        r is None ==> role_model(models@, *role_id, *active_id) is None,
{
    let own = match role_id {
        Some(id) => find_model(models, id),
        None => None,
    };
    match own {
        Some(i) => Some(i),
        None => match active_id {
            Some(id) => find_model(models, id),
            None => None,
        },
    }
}

impl AgentConfig {
    /// The real back end can start: the OpenAI back end with a non-blank key.
    pub fn is_rig_ready(&self) -> (b: bool)
        ensures
            b == (self.backend == BackendKind::Openai && trim(self.api_key@).len() > 0),
    {
        if self.backend != BackendKind::Openai {
            return false;
        }
        let cs = chars_of(self.api_key.as_str());
        trim_chars(&cs).len() > 0
    }

    fn triple_for(&self, role_id: &Option<String>) -> (r: (String, String, String))
        ensures
            (r.0@, r.1@, r.2@) == resolved_triple(*self, *role_id),
    {
        match pick_model(&self.models, role_id, &self.active_model_id) {
            Some(i) => {
                let m = &self.models[i];
                (m.api_key.clone(), m.base_url.clone(), m.model_name.clone())
            },
            None => (self.api_key.clone(), self.base_url.clone(), self.model_name.clone()),
        }
    }

    /// Key, URL and model that name conversations: the title model, else the
    /// active model, else the inline configuration. It always answers.
    pub fn resolve_title_model(&self) -> (r: Option<(String, String, String)>)
        ensures
            r matches Some(t) && (t.0@, t.1@, t.2@) == resolved_triple(*self, self.title_model_id),
    {
        Some(self.triple_for(&self.title_model_id))
    }

    /// Key, URL and model that compress history: the compression model, else
    /// the active model, else the inline configuration. It always answers.
    pub fn resolve_compression_model(&self) -> (r: Option<(String, String, String)>)
        ensures
            r matches Some(t) && (t.0@, t.1@, t.2@) == resolved_triple(
                *self,
                self.compression_model_id,
            ),
    {
        Some(self.triple_for(&self.compression_model_id))
    }
}

} // verus!

verus! {

/// A built-in provider preset: an OpenAI-compatible service and its defaults.
#[derive(Debug, Clone)]
pub struct ProviderPreset {
    pub id: String,
    pub name: String,
    pub default_base_url: String,
    pub default_model: String,
    /// Environment variable suggested for the key.
    pub env_var: String,
    pub docs_url: String,
    pub openai_compat: bool,
}

/// What a preset is, as the contracts see it.
pub struct PresetModel {
    pub id: Seq<char>,
    pub name: Seq<char>,
    pub default_base_url: Seq<char>,
    pub default_model: Seq<char>,
    pub env_var: Seq<char>,
    pub docs_url: Seq<char>,
    pub openai_compat: bool,
}

impl View for ProviderPreset {
    type V = PresetModel;

    open spec fn view(&self) -> PresetModel {
        PresetModel {
            id: self.id@,
            name: self.name@,
            default_base_url: self.default_base_url@,
            default_model: self.default_model@,
            env_var: self.env_var@,
            docs_url: self.docs_url@,
            openai_compat: self.openai_compat,
        }
    }
}

pub open spec fn preset_row(
    id: &str,
    name: &str,
    url: &str,
    model: &str,
    env: &str,
    docs: &str,
) -> PresetModel {
    PresetModel {
        id: id@,
        name: name@,
        default_base_url: url@,
        default_model: model@,
        env_var: env@,
        docs_url: docs@,
        openai_compat: true,
    }
}

/// The built-in presets, in order.
pub open spec fn builtin_preset_list() -> Seq<PresetModel> {
    seq![
        preset_row("openai", "OpenAI", "https://api.openai.com/v1", "gpt-4o-mini", "OPENAI_API_KEY", "https://platform.openai.com/docs/api-reference"),
        preset_row("deepseek", "DeepSeek", "https://api.deepseek.com", "deepseek-chat", "DEEPSEEK_API_KEY", "https://api-docs.deepseek.com/"),
        preset_row("groq", "Groq", "https://api.groq.com/openai/v1", "llama-3.3-70b-versatile", "GROQ_API_KEY", "https://console.groq.com/docs"),
        preset_row("moonshot", "Moonshot (Kimi)", "https://api.moonshot.ai/v1", "moonshot-v1-8k", "MOONSHOT_API_KEY", "https://platform.moonshot.cn/docs"),
        preset_row("openrouter", "OpenRouter", "https://openrouter.ai/api/v1", "openai/gpt-4o-mini", "OPENROUTER_API_KEY", "https://openrouter.ai/docs"),
        preset_row("together", "Together AI", "https://api.together.xyz/v1", "meta-llama/Llama-3-8b-chat-hf", "TOGETHER_API_KEY", "https://docs.together.ai/"),
        preset_row("mistral", "Mistral AI", "https://api.mistral.ai/v1", "mistral-small-latest", "MISTRAL_API_KEY", "https://docs.mistral.ai/"),
        preset_row("perplexity", "Perplexity", "https://api.perplexity.ai", "llama-3.1-sonar-small-128k-online", "PERPLEXITY_API_KEY", "https://docs.perplexity.ai/"),
        preset_row("hyperbolic", "Hyperbolic", "https://api.hyperbolic.xyz/v1", "meta-llama/Meta-Llama-3.1-8B-Instruct", "HYPERBOLIC_API_KEY", "https://docs.hyperbolic.xyz/"),
        preset_row("custom", "自定义 (OpenAI 兼容)", "", "", "", ""),
    ]
}

fn make_preset(id: &str, name: &str, url: &str, model: &str, env: &str, docs: &str) -> (p: ProviderPreset)
    ensures
        p@ == preset_row(id, name, url, model, env, docs),
{
    ProviderPreset {
        id: id.to_string(),
        name: name.to_string(),
        default_base_url: url.to_string(),
        default_model: model.to_string(),
        env_var: env.to_string(),
        docs_url: docs.to_string(),
        openai_compat: true,
    }
}

/// The views of a sequence of presets.
pub open spec fn preset_views(v: Seq<ProviderPreset>) -> Seq<PresetModel> {
    v.map_values(|p: ProviderPreset| p@)
}

/// The built-in provider presets: the OpenAI-compatible services, then a
/// `custom` entry for any other compatible service.
pub fn builtin_presets() -> (v: Vec<ProviderPreset>)
    ensures
        preset_views(v@) == builtin_preset_list(),
{
    let mut v: Vec<ProviderPreset> = Vec::new();
    v.push(make_preset("openai", "OpenAI", "https://api.openai.com/v1", "gpt-4o-mini", "OPENAI_API_KEY", "https://platform.openai.com/docs/api-reference"));
    v.push(make_preset("deepseek", "DeepSeek", "https://api.deepseek.com", "deepseek-chat", "DEEPSEEK_API_KEY", "https://api-docs.deepseek.com/"));
    v.push(make_preset("groq", "Groq", "https://api.groq.com/openai/v1", "llama-3.3-70b-versatile", "GROQ_API_KEY", "https://console.groq.com/docs"));
    v.push(make_preset("moonshot", "Moonshot (Kimi)", "https://api.moonshot.ai/v1", "moonshot-v1-8k", "MOONSHOT_API_KEY", "https://platform.moonshot.cn/docs"));
    v.push(make_preset("openrouter", "OpenRouter", "https://openrouter.ai/api/v1", "openai/gpt-4o-mini", "OPENROUTER_API_KEY", "https://openrouter.ai/docs"));
    v.push(make_preset("together", "Together AI", "https://api.together.xyz/v1", "meta-llama/Llama-3-8b-chat-hf", "TOGETHER_API_KEY", "https://docs.together.ai/"));
    v.push(make_preset("mistral", "Mistral AI", "https://api.mistral.ai/v1", "mistral-small-latest", "MISTRAL_API_KEY", "https://docs.mistral.ai/"));
    v.push(make_preset("perplexity", "Perplexity", "https://api.perplexity.ai", "llama-3.1-sonar-small-128k-online", "PERPLEXITY_API_KEY", "https://docs.perplexity.ai/"));
    v.push(make_preset("hyperbolic", "Hyperbolic", "https://api.hyperbolic.xyz/v1", "meta-llama/Meta-Llama-3.1-8B-Instruct", "HYPERBOLIC_API_KEY", "https://docs.hyperbolic.xyz/"));
    v.push(make_preset("custom", "自定义 (OpenAI 兼容)", "", "", "", ""));
    assert(preset_views(v@) =~= builtin_preset_list());
    v
}

/// Every built-in preset speaks the OpenAI-compatible protocol, and the list
/// offers both `openai` and `custom`.
pub proof fn lemma_presets_compatible()
    ensures
        forall|i: int|
            0 <= i < builtin_preset_list().len() ==> (#[trigger] builtin_preset_list()[i]).openai_compat,
        exists|i: int| 0 <= i < builtin_preset_list().len() && (#[trigger] builtin_preset_list()[i]).id == "openai"@,
        exists|i: int| 0 <= i < builtin_preset_list().len() && (#[trigger] builtin_preset_list()[i]).id == "custom"@,
{
    assert(builtin_preset_list()[0].id == "openai"@);
    assert(builtin_preset_list()[9].id == "custom"@);
}

} // verus!
