//! Configuration: the translation services and their settings, with the
//! defaults that a missing setting takes.
use vstd::prelude::*;

verus! {

/// The translation service in use.
#[derive(Debug, Clone, Copy, PartialEq, Eq, Structural, Hash)]
pub enum TranslationMode {
    Local,
    Ai,
    Google,
    DeepL,
    Yandex,
    LibreTranslate,
    Azure,
    Bergamot,
    Baidu,
    Youdao,
    Qq,
    Lingva,
}

pub open spec fn mode_display_name(m: TranslationMode) -> Seq<char> {
    match m {
        TranslationMode::Local => "Local (CT2)"@,
        TranslationMode::Ai => "AI (LLM)"@,
        TranslationMode::Google => "Google Translate"@,
        TranslationMode::DeepL => "DeepL"@,
        TranslationMode::Yandex => "Yandex Translate"@,
        TranslationMode::LibreTranslate => "LibreTranslate"@,
        TranslationMode::Azure => "Azure Translator"@,
        TranslationMode::Bergamot => "Bergamot"@,
        TranslationMode::Baidu => "Baidu Fanyi"@,
        TranslationMode::Youdao => "Youdao Fanyi"@,
        TranslationMode::Qq => "QQ Fanyi"@,
        TranslationMode::Lingva => "Lingva Translate"@,
    }
}

pub open spec fn mode_section_name(m: TranslationMode) -> Seq<char> {
    match m {
        TranslationMode::Ai => "AI Settings"@,
        TranslationMode::Local => "Local Settings"@,
        TranslationMode::DeepL => "DeepL Settings"@,
        TranslationMode::Yandex => "Yandex Settings"@,
        TranslationMode::Azure => "Azure Settings"@,
        TranslationMode::Baidu => "Baidu Settings"@,
        TranslationMode::Youdao => "Youdao Settings"@,
        TranslationMode::Qq => "QQ Settings"@,
        TranslationMode::LibreTranslate => "LibreTranslate Settings"@,
        TranslationMode::Bergamot => "Bergamot Settings"@,
        TranslationMode::Lingva => "Lingva Settings"@,
        TranslationMode::Google => ""@,
    }
}

/// The services that need credentials.
pub open spec fn mode_needs_key(m: TranslationMode) -> bool {
    m is DeepL || m is Yandex || m is Azure || m is Baidu || m is Youdao || m is Qq
}

/// The most characters a service takes in one request, where it has a limit.
pub open spec fn mode_char_limit(m: TranslationMode) -> Option<usize> {
    match m {
        TranslationMode::Local | TranslationMode::Ai | TranslationMode::Bergamot => None,
        TranslationMode::Google
        | TranslationMode::LibreTranslate
        | TranslationMode::Youdao
        | TranslationMode::Lingva => Some(5_000),
        TranslationMode::DeepL => Some(131_072),
        TranslationMode::Yandex | TranslationMode::Azure => Some(10_000),
        TranslationMode::Baidu | TranslationMode::Qq => Some(2_000),
    }
}

/// Every service, in the order they are offered.
pub open spec fn all_modes() -> Seq<TranslationMode> {
    seq![
        TranslationMode::Local,
        TranslationMode::Ai,
        TranslationMode::Google,
        TranslationMode::DeepL,
        TranslationMode::Yandex,
        TranslationMode::LibreTranslate,
        TranslationMode::Azure,
        TranslationMode::Bergamot,
        TranslationMode::Baidu,
        TranslationMode::Youdao,
        TranslationMode::Qq,
        TranslationMode::Lingva,
    ]
}

/// The position of a mode among all modes.
pub open spec fn mode_index(m: TranslationMode) -> int {
    match m {
        TranslationMode::Local => 0,
        TranslationMode::Ai => 1,
        TranslationMode::Google => 2,
        TranslationMode::DeepL => 3,
        TranslationMode::Yandex => 4,
        TranslationMode::LibreTranslate => 5,
        TranslationMode::Azure => 6,
        TranslationMode::Bergamot => 7,
        TranslationMode::Baidu => 8,
        TranslationMode::Youdao => 9,
        TranslationMode::Qq => 10,
        TranslationMode::Lingva => 11,
    }
}

impl TranslationMode {
    /// The service's name as shown to the user.
    pub fn display_name(&self) -> (r: &'static str)
        ensures
            r@ == mode_display_name(*self),
    {
        match self {
            TranslationMode::Local => "Local (CT2)",
            TranslationMode::Ai => "AI (LLM)",
            TranslationMode::Google => "Google Translate",
            TranslationMode::DeepL => "DeepL",
            TranslationMode::Yandex => "Yandex Translate",
            TranslationMode::LibreTranslate => "LibreTranslate",
            TranslationMode::Azure => "Azure Translator",
            TranslationMode::Bergamot => "Bergamot",
            TranslationMode::Baidu => "Baidu Fanyi",
            TranslationMode::Youdao => "Youdao Fanyi",
            TranslationMode::Qq => "QQ Fanyi",
            TranslationMode::Lingva => "Lingva Translate",
        }
    }

    pub fn needs_key(&self) -> (r: bool)
        ensures
            r == mode_needs_key(*self),
    {
        match self {
            TranslationMode::DeepL | TranslationMode::Yandex | TranslationMode::Azure
            | TranslationMode::Baidu | TranslationMode::Youdao | TranslationMode::Qq => true,
            _ => false,
        }
    }

    pub fn char_limit(&self) -> (r: Option<usize>)
        ensures
            r == mode_char_limit(*self),
    {
        match self {
            TranslationMode::Local | TranslationMode::Ai | TranslationMode::Bergamot => None,
            TranslationMode::Google
            | TranslationMode::LibreTranslate
            | TranslationMode::Youdao
            | TranslationMode::Lingva => Some(5_000),
            TranslationMode::DeepL => Some(131_072),
            TranslationMode::Yandex | TranslationMode::Azure => Some(10_000),
            TranslationMode::Baidu | TranslationMode::Qq => Some(2_000),
        }
    }

    /// The title of the service's settings; empty for a service without any.
    pub fn display_section_name(&self) -> (r: &'static str)
        ensures
            r@ == mode_section_name(*self),
    {
        match self {
            TranslationMode::Ai => "AI Settings",
            TranslationMode::Local => "Local Settings",
            TranslationMode::DeepL => "DeepL Settings",
            TranslationMode::Yandex => "Yandex Settings",
            TranslationMode::Azure => "Azure Settings",
            TranslationMode::Baidu => "Baidu Settings",
            TranslationMode::Youdao => "Youdao Settings",
            TranslationMode::Qq => "QQ Settings",
            TranslationMode::LibreTranslate => "LibreTranslate Settings",
            TranslationMode::Bergamot => "Bergamot Settings",
            TranslationMode::Lingva => "Lingva Settings",
            TranslationMode::Google => "",
        }
    }

    pub fn all() -> (r: Vec<TranslationMode>)
        ensures
            r@ == all_modes(),
    {
        let r = vec![
            TranslationMode::Local,
            TranslationMode::Ai,
            TranslationMode::Google,
            TranslationMode::DeepL,
            TranslationMode::Yandex,
            TranslationMode::LibreTranslate,
            TranslationMode::Azure,
            TranslationMode::Bergamot,
            TranslationMode::Baidu,
            TranslationMode::Youdao,
            TranslationMode::Qq,
            TranslationMode::Lingva,
        ];
        assert(r@ =~= all_modes());
        r
    }
}

impl Default for TranslationMode {
    fn default() -> (r: Self)
        ensures
            r == TranslationMode::Local,
    {
        TranslationMode::Local
    }
}

// ---------------------------------------------------------------------------
// Default values
// ---------------------------------------------------------------------------
pub fn default_provider() -> (r: String)
    ensures
        r@ == "ollama"@,
{
    String::from_str("ollama")
}

pub fn default_model() -> (r: String)
    ensures
        r@ == "qwen2.5-coder:7b"@,
{
    String::from_str("qwen2.5-coder:7b")
}

pub fn default_model_repo() -> (r: String)
    ensures
        r@ == "JustFrederik/nllb-200-distilled-600M-ct2-int8"@,
{
    String::from_str("JustFrederik/nllb-200-distilled-600M-ct2-int8")
}

pub fn default_model_format() -> (r: String)
    ensures
        r@ == "ct2"@,
{
    String::from_str("ct2")
}

pub fn default_compute_type() -> (r: String)
    ensures
        r@ == "INT8"@,
{
    String::from_str("INT8")
}

pub fn default_device() -> (r: String)
    ensures
        r@ == "cpu"@,
{
    String::from_str("cpu")
}

pub fn default_beam_size() -> (r: usize)
    ensures
        r == 4,
{
    4
}

pub fn default_max_decoding_length() -> (r: usize)
    ensures
        r == 512,
{
    512
}

pub fn default_num_threads() -> (r: usize)
    ensures
        r == 0,
{
    0
}

pub fn default_no_repeat_ngram_size() -> (r: usize)
    ensures
        r == 0,
{
    0
}

pub fn default_libre_url() -> (r: String)
    ensures
        r@ == "https://libretranslate.com"@,
{
    String::from_str("https://libretranslate.com")
}

pub fn default_azure_region() -> (r: String)
    ensures
        r@ == "eastus"@,
{
    String::from_str("eastus")
}

pub fn default_bergamot_url() -> (r: String)
    ensures
        r@ == "http://localhost:8080"@,
{
    String::from_str("http://localhost:8080")
}

pub fn default_qq_region() -> (r: String)
    ensures
        r@ == "ap-beijing"@,
{
    String::from_str("ap-beijing")
}

pub fn default_lingva_url() -> (r: String)
    ensures
        r@ == "https://lingva.ml"@,
{
    String::from_str("https://lingva.ml")
}

pub fn default_source_lang() -> (r: String)
    ensures
        r@ == "en"@,
{
    String::from_str("en")
}

// ---------------------------------------------------------------------------
// The settings of each service
// ---------------------------------------------------------------------------
/// The AI (LLM) service.
#[derive(Debug, Clone)]
pub struct AiConfig {
    pub provider: String,
    pub api_key: Option<String>,
    pub base_url: Option<String>,
    pub model: String,
}

impl Default for AiConfig {
    fn default() -> (r: Self)
        ensures
            r.provider@ == "ollama"@,
            r.api_key is None,
            r.base_url is None,
            r.model@ == "qwen2.5-coder:7b"@,
    {
        AiConfig { provider: default_provider(), api_key: None, base_url: None, model: default_model() }
    }
}

/// Google Translate, which takes no settings.
#[derive(Debug, Clone)]
pub struct GoogleConfig {}

impl Default for GoogleConfig {
    fn default() -> (r: Self)
        ensures
            r == (GoogleConfig {}),
    {
        GoogleConfig {  }
    }
}

/// DeepL.
#[derive(Debug, Clone)]
pub struct DeepLConfig {
    pub api_key: Option<String>,
    pub pro: bool,
}

impl Default for DeepLConfig {
    fn default() -> (r: Self)
        ensures
            r.api_key is None,
            !r.pro,
    {
        DeepLConfig { api_key: None, pro: false }
    }
}

/// Yandex Translate.
#[derive(Debug, Clone)]
pub struct YandexConfig {
    pub api_key: Option<String>,
    pub folder_id: Option<String>,
}

impl Default for YandexConfig {
    fn default() -> (r: Self)
        ensures
            r.api_key is None,
            r.folder_id is None,
    {
        YandexConfig { api_key: None, folder_id: None }
    }
}

/// LibreTranslate.
#[derive(Debug, Clone)]
pub struct LibreTranslateConfig {
    pub url: String,
    pub api_key: Option<String>,
}

impl Default for LibreTranslateConfig {
    fn default() -> (r: Self)
        ensures
            r.url@ == "https://libretranslate.com"@,
            r.api_key is None,
    {
        LibreTranslateConfig { url: default_libre_url(), api_key: None }
    }
}

/// Azure Translator.
#[derive(Debug, Clone)]
pub struct AzureConfig {
    pub api_key: Option<String>,
    pub region: String,
    pub endpoint: Option<String>,
}

impl Default for AzureConfig {
    fn default() -> (r: Self)
        ensures
            r.api_key is None,
            r.region@ == "eastus"@,
            r.endpoint is None,
    {
        AzureConfig { api_key: None, region: default_azure_region(), endpoint: None }
    }
}

/// A Bergamot server.
#[derive(Debug, Clone)]
pub struct BergamotConfig {
    pub url: String,
}

impl Default for BergamotConfig {
    fn default() -> (r: Self)
        ensures
            r.url@ == "http://localhost:8080"@,
    {
        BergamotConfig { url: default_bergamot_url() }
    }
}

/// Baidu Fanyi.
#[derive(Debug, Clone)]
pub struct BaiduConfig {
    pub app_id: Option<String>,
    pub secret_key: Option<String>,
}

impl Default for BaiduConfig {
    fn default() -> (r: Self)
        ensures
            r.app_id is None,
            r.secret_key is None,
    {
        BaiduConfig { app_id: None, secret_key: None }
    }
}

/// Youdao Fanyi.
#[derive(Debug, Clone)]
pub struct YoudaoConfig {
    pub app_key: Option<String>,
    pub app_secret: Option<String>,
}

impl Default for YoudaoConfig {
    fn default() -> (r: Self)
        ensures
            r.app_key is None,
            r.app_secret is None,
    {
        YoudaoConfig { app_key: None, app_secret: None }
    }
}

/// QQ Fanyi (Tencent Cloud).
#[derive(Debug, Clone)]
pub struct QqConfig {
    pub secret_id: Option<String>,
    pub secret_key: Option<String>,
    pub region: String,
}

impl Default for QqConfig {
    fn default() -> (r: Self)
        ensures
            r.secret_id is None,
            r.secret_key is None,
            r.region@ == "ap-beijing"@,
    {
        QqConfig { secret_id: None, secret_key: None, region: default_qq_region() }
    }
}

/// A Lingva instance.
#[derive(Debug, Clone)]
pub struct LingvaConfig {
    pub instance_url: String,
}

impl Default for LingvaConfig {
    fn default() -> (r: Self)
        ensures
            r.instance_url@ == "https://lingva.ml"@,
    {
        LingvaConfig { instance_url: default_lingva_url() }
    }
}

/// The source language, the target languages, and a context for the translator.
#[derive(Debug, Clone)]
pub struct TranslationConfig {
    pub default_source_lang: String,
    pub default_target_langs: Vec<String>,
    pub context: Option<String>,
}

impl Default for TranslationConfig {
    fn default() -> (r: Self)
        ensures
            r.default_source_lang@ == "en"@,
            r.default_target_langs@.len() == 2,
            r.default_target_langs@[0]@ == "fr"@,
            r.default_target_langs@[1]@ == "de"@,
            r.context is None,
    {
        let mut langs: Vec<String> = Vec::new();
        langs.push(String::from_str("fr"));
        langs.push(String::from_str("de"));
        TranslationConfig { default_source_lang: default_source_lang(), default_target_langs: langs, context: None }
    }
}

/// The model run on the machine.  Its repetition penalty, a float, is kept
/// by the caller, which alone reads it.
#[derive(Debug, Clone)]
pub struct LocalConfig {
    pub model_repo: String,
    pub model_format: String,
    pub cache_dir: Option<String>,
    pub compute_type: String,
    pub device: String,
    pub beam_size: usize,
    pub max_decoding_length: usize,
    pub num_threads: usize,
    pub no_repeat_ngram_size: usize,
}

impl Default for LocalConfig {
    fn default() -> (r: Self)
        ensures
            r.model_repo@ == "JustFrederik/nllb-200-distilled-600M-ct2-int8"@,
            r.model_format@ == "ct2"@,
            r.cache_dir is None,
            r.compute_type@ == "INT8"@,
            r.device@ == "cpu"@,
            r.beam_size == 4,
            r.max_decoding_length == 512,
            r.num_threads == 0,
            r.no_repeat_ngram_size == 0,
    {
        LocalConfig {
            model_repo: default_model_repo(),
            model_format: default_model_format(),
            cache_dir: None,
            compute_type: default_compute_type(),
            device: default_device(),
            beam_size: default_beam_size(),
            max_decoding_length: default_max_decoding_length(),
            num_threads: default_num_threads(),
            no_repeat_ngram_size: default_no_repeat_ngram_size(),
        }
    }
}

/// All the settings.
#[derive(Debug, Clone)]
pub struct Config {
    pub mode: TranslationMode,
    pub ai: AiConfig,
    pub local: LocalConfig,
    pub google: GoogleConfig,
    pub deepl: DeepLConfig,
    pub yandex: YandexConfig,
    pub libre_translate: LibreTranslateConfig,
    pub azure: AzureConfig,
    pub bergamot: BergamotConfig,
    pub baidu: BaiduConfig,
    pub youdao: YoudaoConfig,
    pub qq: QqConfig,
    pub lingva: LingvaConfig,
    pub translation: TranslationConfig,
}

impl Default for Config {
    fn default() -> (r: Self)
        ensures
            r.mode == TranslationMode::Local,
            r.ai.provider@ == "ollama"@ && r.ai.api_key is None,
            r.deepl.api_key is None,
            r.azure.region@ == "eastus"@,
            r.translation.default_source_lang@ == "en"@,
    {
        Config {
            mode: TranslationMode::default(),
            ai: AiConfig::default(),
            local: LocalConfig::default(),
            google: GoogleConfig::default(),
            deepl: DeepLConfig::default(),
            yandex: YandexConfig::default(),
            libre_translate: LibreTranslateConfig::default(),
            azure: AzureConfig::default(),
            bergamot: BergamotConfig::default(),
            baidu: BaiduConfig::default(),
            youdao: YoudaoConfig::default(),
            qq: QqConfig::default(),
            lingva: LingvaConfig::default(),
            translation: TranslationConfig::default(),
        }
    }
}

/// `configured` when a secret is set, else `not set`.
pub open spec fn secret_shown(o: Option<String>) -> Seq<char> {
    if o is Some {
        "configured"@
    } else {
        "not set"@
    }
}

/// The value when set, else `not set`.
pub open spec fn value_shown(o: Option<String>) -> Seq<char> {
    match o {
        Some(v) => v@,
        None => "not set"@,
    }
}

/// The settings of the service shown by `config`, as label and value.
pub open spec fn settings_of(m: TranslationMode, c: Config) -> Seq<(Seq<char>, Seq<char>)> {
    match m {
        TranslationMode::Ai => seq![("Provider:"@, c.ai.provider@), ("Model:   "@, c.ai.model@)],
        TranslationMode::Local => seq![
            ("Model:  "@, c.local.model_repo@),
            ("Compute:"@, c.local.compute_type@),
            ("Device: "@, c.local.device@),
        ],
        TranslationMode::DeepL => seq![("API Key:"@, secret_shown(c.deepl.api_key))],
        TranslationMode::Yandex => seq![
            ("API Key:   "@, secret_shown(c.yandex.api_key)),
            ("Folder ID: "@, value_shown(c.yandex.folder_id)),
        ],
        TranslationMode::Azure => seq![
            ("API Key:"@, secret_shown(c.azure.api_key)),
            ("Region: "@, c.azure.region@),
        ],
        TranslationMode::Baidu => seq![
            ("App ID:    "@, value_shown(c.baidu.app_id)),
            ("Secret Key:"@, secret_shown(c.baidu.secret_key)),
        ],
        TranslationMode::Youdao => seq![
            ("App Key:   "@, value_shown(c.youdao.app_key)),
            ("App Secret:"@, secret_shown(c.youdao.app_secret)),
        ],
        TranslationMode::Qq => seq![
            ("Secret ID: "@, value_shown(c.qq.secret_id)),
            ("Secret Key:"@, secret_shown(c.qq.secret_key)),
            ("Region:    "@, c.qq.region@),
        ],
        TranslationMode::LibreTranslate => seq![
            ("URL:    "@, c.libre_translate.url@),
            (
                "API Key:"@,
                if c.libre_translate.api_key is Some {
                    "configured"@
                } else {
                    "none"@
                },
            ),
        ],
        TranslationMode::Bergamot => seq![("URL:"@, c.bergamot.url@)],
        TranslationMode::Lingva => seq![("Instance:"@, c.lingva.instance_url@)],
        TranslationMode::Google => seq![],
    }
}

/// The pairs as plain values.
pub open spec fn pairs_shown(v: Seq<(&'static str, &str)>) -> Seq<(Seq<char>, Seq<char>)> {
    v.map_values(|p: (&'static str, &str)| (p.0@, p.1@))
}

fn secret_text(o: &Option<String>) -> (r: &'static str)
    ensures
        r@ == secret_shown(*o),
{
    if o.is_some() {
        "configured"
    } else {
        "not set"
    }
}

fn value_text<'a>(o: &'a Option<String>) -> (r: &'a str)
    ensures
        r@ == value_shown(*o),
{
    match o {
        Some(v) => v.as_str(),
        None => "not set",
    }
}

impl TranslationMode {
    /// The settings of this service in `config`, as the `config` command
    /// lists them.
    pub fn display_settings<'a>(&self, config: &'a Config) -> (r: Vec<(&'static str, &'a str)>)
        ensures
            pairs_shown(r@) == settings_of(*self, *config),
    {
        let mut v: Vec<(&'static str, &'a str)> = Vec::new();
        match self {
            TranslationMode::Ai => {
                v.push(("Provider:", config.ai.provider.as_str()));
                v.push(("Model:   ", config.ai.model.as_str()));
            },
            TranslationMode::Local => {
                v.push(("Model:  ", config.local.model_repo.as_str()));
                v.push(("Compute:", config.local.compute_type.as_str()));
                v.push(("Device: ", config.local.device.as_str()));
            },
            TranslationMode::DeepL => {
                v.push(("API Key:", secret_text(&config.deepl.api_key)));
            },
            TranslationMode::Yandex => {
                v.push(("API Key:   ", secret_text(&config.yandex.api_key)));
                v.push(("Folder ID: ", value_text(&config.yandex.folder_id)));
            },
            TranslationMode::Azure => {
                v.push(("API Key:", secret_text(&config.azure.api_key)));
                v.push(("Region: ", config.azure.region.as_str()));
            },
            TranslationMode::Baidu => {
                v.push(("App ID:    ", value_text(&config.baidu.app_id)));
                v.push(("Secret Key:", secret_text(&config.baidu.secret_key)));
            },
            TranslationMode::Youdao => {
                v.push(("App Key:   ", value_text(&config.youdao.app_key)));
                v.push(("App Secret:", secret_text(&config.youdao.app_secret)));
            },
            TranslationMode::Qq => {
                v.push(("Secret ID: ", value_text(&config.qq.secret_id)));
                v.push(("Secret Key:", secret_text(&config.qq.secret_key)));
                v.push(("Region:    ", config.qq.region.as_str()));
            },
            TranslationMode::LibreTranslate => {
                v.push(("URL:    ", config.libre_translate.url.as_str()));
                v.push(
                    (
                        "API Key:",
                        if config.libre_translate.api_key.is_some() {
                            "configured"
                        } else {
                            "none"
                        },
                    ),
                );
            },
            TranslationMode::Bergamot => {
                v.push(("URL:", config.bergamot.url.as_str()));
            },
            TranslationMode::Lingva => {
                v.push(("Instance:", config.lingva.instance_url.as_str()));
            },
            TranslationMode::Google => {},
        }
        assert(pairs_shown(v@) =~= settings_of(*self, *config));
        v
    }
}

/// Loads the configuration; the loading itself reads files and the
/// environment.
pub struct ConfigLoader;

/// The example configuration that `config --generate` prints.
pub const EXAMPLE_CONFIG: &'static str = "# Example Zellig configuration\n# Copy to zellig.toml and customize\n\n# Translation service: local, ai, google, deepl, yandex,\n#   libre_translate, azure, bergamot, baidu, youdao, qq, lingva\nmode = \"local\"\n\n[ai]\nprovider = \"openai\"\nmodel = \"gpt-4o-mini\"\n# api_key = \"sk-...\"\n\n[deepl]\n# api_key = \"...\"\n# pro = false\n\n[yandex]\n# api_key = \"...\"\n# folder_id = \"...\"\n\n[libre_translate]\n# url = \"https://libretranslate.com\"\n# api_key = \"...\"\n\n[azure]\n# api_key = \"...\"\n# region = \"eastus\"\n\n[bergamot]\n# url = \"http://localhost:8080\"\n\n[baidu]\n# app_id = \"...\"\n# secret_key = \"...\"\n\n[youdao]\n# app_key = \"...\"\n# app_secret = \"...\"\n\n[qq]\n# secret_id = \"...\"\n# secret_key = \"...\"\n# region = \"ap-beijing\"\n\n[lingva]\n# instance_url = \"https://lingva.ml\"\n\n[translation]\ndefault_source_lang = \"en\"\ndefault_target_langs = [\"fr\", \"de\"]\n";

/// The example configuration.
pub fn generate_example_config() -> (r: String)
    ensures
        r@ == EXAMPLE_CONFIG@,
{
    String::from_str(EXAMPLE_CONFIG)
}

} // verus!
