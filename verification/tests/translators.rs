use hmac::{Hmac, Mac};
use sha2::{Digest, Sha256};
use sonic_rs::{JsonContainerTrait, JsonValueTrait};
use zellig::config::{
    AzureConfig, BaiduConfig, DeepLConfig, LibreTranslateConfig, LingvaConfig, QqConfig,
    YandexConfig, YoudaoConfig,
};
use zellig::error::ZelligError;
use zellig::translator::azure::{azure_url, AzureTranslator};
use zellig::translator::baidu::{baidu_lang, baidu_outcome, baidu_sign, BaiduTranslator};
use zellig::translator::deepl::{deepl_auth, deepl_source, deepl_target, deepl_url, DeepLTranslator};
use zellig::translator::google::{google_answer, google_outcome, GoogleTranslator};
use zellig::translator::libre::{libre_outcome, LibreTranslator};
use zellig::translator::lingva::{lingva_url, percent_encode_path, LingvaTranslator};
use zellig::translator::local::{clean_unk, compute_max_decoding_length, LocalTranslator};
use zellig::translator::qq::{is_leap, qq_outcome, qq_request, tc3_authorization, timestamp_to_date, QqTranslator};
use zellig::translator::sign::sha256_hex;
use zellig::translator::yandex::{yandex_auth, YandexTranslator};
use zellig::translator::youdao::{
    truncate_for_sign, youdao_lang, youdao_outcome, youdao_sign, YoudaoTranslator,
};
use zellig::translator::{first_or, http_failure, translation_error, trim_end_slashes, PromptBuilder};

const PROMPT_HEAD: &str = "You are a professional translator. Translate";

fn config_message(e: ZelligError) -> String {
    match e {
        ZelligError::ConfigError(m) => m,
        other => panic!("expected a configuration error, got {:?}", other),
    }
}

fn translation_message(e: ZelligError) -> String {
    match e {
        ZelligError::TranslationError(m) => m,
        other => panic!("expected a translation error, got {:?}", other),
    }
}

fn hex_of(bytes: &[u8]) -> String {
    bytes.iter().map(|b| format!("{:02x}", b)).collect()
}

fn hmac_oracle(key: &[u8], data: &[u8]) -> Vec<u8> {
    let mut mac = <Hmac<Sha256> as Mac>::new_from_slice(key).unwrap();
    mac.update(data);
    mac.finalize().into_bytes().to_vec()
}

#[test]
fn sha256_of_abc() {
    assert_eq!(
        sha256_hex("abc"),
        "ba7816bf8f01cfea414140de5dae2223b00361a396177a9cb410ff61f20015ad"
    );
    assert_eq!(sha256_hex(""), hex_of(&Sha256::digest(b"")));
}

#[test]
fn md5_signature_of_known_input() {
    assert_eq!(baidu_sign("a", "b", "", "c"), "900150983cd24fb0d6963f7d28e17f72");
}

#[test]
fn baidu_signature_is_md5_of_the_parts() {
    let sign = baidu_sign("2015063000000001", "apple", "1435660288", "12345678");
    let expected = format!("{:x}", md5::compute(b"2015063000000001apple143566028812345678"));
    assert_eq!(sign, expected);
    assert_eq!(sign.len(), 32);
}

#[test]
fn baidu_language_codes() {
    assert_eq!(baidu_lang("zh"), "zh");
    assert_eq!(baidu_lang("zh-cn"), "zh");
    assert_eq!(baidu_lang("zh-tw"), "cht");
    assert_eq!(baidu_lang("zh-hk"), "cht");
    assert_eq!(baidu_lang("ja"), "jp");
    assert_eq!(baidu_lang("ko"), "kor");
    assert_eq!(baidu_lang("ar"), "ara");
    assert_eq!(baidu_lang("fr"), "fra");
    assert_eq!(baidu_lang("es"), "spa");
    assert_eq!(baidu_lang("de"), "de");
}

#[test]
fn baidu_answers() {
    let r = baidu_outcome(Some("54001".to_string()), Some("Invalid Sign".to_string()), None);
    assert_eq!(translation_message(r.unwrap_err()), "Baidu error 54001: Invalid Sign");
    let r = baidu_outcome(Some("52003".to_string()), None, Some("x".to_string()));
    assert_eq!(translation_message(r.unwrap_err()), "Baidu error 52003: unknown");
    let r = baidu_outcome(None, None, Some("Bonjour".to_string()));
    assert_eq!(r.unwrap(), "Bonjour");
    let r = baidu_outcome(None, None, None);
    assert_eq!(translation_message(r.unwrap_err()), "invalid Baidu response");
}

#[test]
fn baidu_needs_id_and_key() {
    let mut c = BaiduConfig::default();
    assert_eq!(config_message(BaiduTranslator::new(&c).err().unwrap()), "Baidu app_id not configured");
    c.app_id = Some("id".to_string());
    assert_eq!(
        config_message(BaiduTranslator::new(&c).err().unwrap()),
        "Baidu secret_key not configured"
    );
    c.secret_key = Some("key".to_string());
    let t = BaiduTranslator::new(&c).ok().unwrap();
    assert_eq!(t.app_id, "id");
    assert_eq!(t.secret_key, "key");
}

#[test]
fn youdao_truncates_long_texts_for_signing() {
    assert_eq!(truncate_for_sign("short text"), "short text");
    assert_eq!(truncate_for_sign("abcdefghijklmnopqrst"), "abcdefghijklmnopqrst");
    assert_eq!(
        truncate_for_sign("abcdefghijklmnopqrstuvwxyz"),
        "abcdefghij26qrstuvwxyz"
    );
    assert_eq!(truncate_for_sign("ééééééééééééééééééééé"), "éééééééééé21éééééééééé");
}

#[test]
fn youdao_signature_and_salt() {
    let (salt, sign) = youdao_sign("key", "hello", "1700000000", "secret");
    assert_eq!(salt, "1700000000_salt");
    let expected = hex_of(&Sha256::digest(b"keyhello1700000000_salt1700000000secret"));
    assert_eq!(sign, expected);
}

#[test]
fn youdao_language_codes() {
    assert_eq!(youdao_lang("zh"), "zh-CHS");
    assert_eq!(youdao_lang("ZH-cn"), "zh-CHS");
    assert_eq!(youdao_lang("zh-Hant"), "zh-CHT");
    assert_eq!(youdao_lang("fr"), "fr");
}

#[test]
fn youdao_answers_and_settings() {
    assert_eq!(translation_message(youdao_outcome("108", None).unwrap_err()), "Youdao error code: 108");
    assert_eq!(youdao_outcome("0", Some("Salut".to_string())).unwrap(), "Salut");
    assert_eq!(
        translation_message(youdao_outcome("0", None).unwrap_err()),
        "invalid Youdao response"
    );
    let mut c = YoudaoConfig::default();
    assert_eq!(config_message(YoudaoTranslator::new(&c).err().unwrap()), "Youdao app_key not configured");
    c.app_key = Some("k".to_string());
    assert_eq!(
        config_message(YoudaoTranslator::new(&c).err().unwrap()),
        "Youdao app_secret not configured"
    );
    c.app_secret = Some("s".to_string());
    assert!(YoudaoTranslator::new(&c).is_ok());
}

#[test]
fn deepl_codes_and_requests() {
    assert_eq!(deepl_source("fr"), "FR");
    assert_eq!(deepl_target("en"), "EN-US");
    assert_eq!(deepl_target("PT"), "PT-BR");
    assert_eq!(deepl_target("zh-cn"), "ZH-HANS");
    assert_eq!(deepl_target("zh-TW"), "ZH-HANT");
    assert_eq!(deepl_target("de"), "DE");
    assert_eq!(deepl_url("https://api-free.deepl.com"), "https://api-free.deepl.com/v2/translate");
    assert_eq!(deepl_auth("abc"), "DeepL-Auth-Key abc");
    let mut c = DeepLConfig::default();
    assert_eq!(config_message(DeepLTranslator::new(&c).err().unwrap()), "DeepL API key not configured");
    c.api_key = Some("abc".to_string());
    assert_eq!(DeepLTranslator::new(&c).ok().unwrap().base_url, "https://api-free.deepl.com");
    c.pro = true;
    assert_eq!(DeepLTranslator::new(&c).ok().unwrap().base_url, "https://api.deepl.com");
}

#[test]
fn yandex_settings() {
    let mut c = YandexConfig::default();
    assert_eq!(config_message(YandexTranslator::new(&c).err().unwrap()), "Yandex API key not configured");
    c.api_key = Some("k".to_string());
    c.folder_id = Some("f".to_string());
    let t = YandexTranslator::new(&c).ok().unwrap();
    assert_eq!(t.folder_id, Some("f".to_string()));
    assert_eq!(yandex_auth("k"), "Api-Key k");
}

#[test]
fn azure_settings() {
    let mut c = AzureConfig::default();
    assert_eq!(
        config_message(AzureTranslator::new(&c).err().unwrap()),
        "Azure Translator API key not configured"
    );
    c.api_key = Some("k".to_string());
    let t = AzureTranslator::new(&c).ok().unwrap();
    assert_eq!(t.endpoint, "https://api.cognitive.microsofttranslator.com");
    assert_eq!(t.region, "eastus");
    c.endpoint = Some("https://example.org//".to_string());
    let t = AzureTranslator::new(&c).ok().unwrap();
    assert_eq!(t.endpoint, "https://example.org");
    assert_eq!(azure_url(&t.endpoint), "https://example.org/translate");
}

#[test]
fn libre_settings_and_answers() {
    let mut c = LibreTranslateConfig::default();
    c.url = "http://localhost:5000/".to_string();
    let t = LibreTranslator::new(&c).ok().unwrap();
    assert_eq!(t.base_url, "http://localhost:5000");
    assert_eq!(t.api_key, None);
    assert_eq!(
        translation_message(libre_outcome(Some("bad".to_string()), None).unwrap_err()),
        "bad"
    );
    assert_eq!(libre_outcome(None, Some("Hola".to_string())).unwrap(), "Hola");
    assert_eq!(
        translation_message(libre_outcome(None, None).unwrap_err()),
        "invalid LibreTranslate response"
    );
}

#[test]
fn google_joins_the_pieces() {
    assert!(GoogleTranslator::new().is_ok());
    let pieces = vec![Some("Bon".to_string()), None, Some("jour".to_string())];
    assert_eq!(google_outcome(Some(pieces)).unwrap(), "Bonjour");
    assert_eq!(
        translation_message(google_outcome(Some(vec![None])).unwrap_err()),
        "empty translation"
    );
    assert_eq!(
        translation_message(google_outcome(None).unwrap_err()),
        "invalid Google response"
    );
}

#[test]
fn lingva_encodes_the_path() {
    assert_eq!(percent_encode_path("hello world/é"), "hello%20world%2F%C3%A9");
    assert_eq!(percent_encode_path("a-b_c.d~e"), "a-b_c.d~e");
    assert_eq!(
        lingva_url("https://lingva.ml", "en", "fr", "hi"),
        "https://lingva.ml/api/v1/en/fr/hi"
    );
    let mut c = LingvaConfig::default();
    assert_eq!(LingvaTranslator::new(&c).ok().unwrap().instance_url, "https://lingva.ml");
    c.instance_url = "https://l.example/".to_string();
    assert_eq!(LingvaTranslator::new(&c).ok().unwrap().instance_url, "https://l.example");
}

#[test]
fn qq_dates() {
    assert_eq!(timestamp_to_date(0), "1970-01-01");
    assert_eq!(timestamp_to_date(86399), "1970-01-01");
    assert_eq!(timestamp_to_date(86400), "1970-01-02");
    assert_eq!(timestamp_to_date(951782400), "2000-02-29");
    assert_eq!(timestamp_to_date(1700000000), "2023-11-14");
    assert_eq!(timestamp_to_date(1709251200), "2024-03-01");
    assert!(is_leap(2000));
    assert!(is_leap(2024));
    assert!(!is_leap(1900));
    assert!(!is_leap(2023));
}

#[test]
fn qq_authorization_header() {
    let payload = "{\"SourceText\":\"hi\"}";
    let ts: u64 = 1700000000;
    let auth = tc3_authorization("AKID", "SECRET", payload, ts, "ap-beijing");
    let date = "2023-11-14";
    let canonical = format!(
        "POST\n/\n\ncontent-type:application/json; charset=utf-8\nhost:tmt.tencentcloudapi.com\n\ncontent-type;host\n{}",
        hex_of(&Sha256::digest(payload.as_bytes()))
    );
    let scope = format!("{}/tmt/tc3_request", date);
    let to_sign = format!(
        "TC3-HMAC-SHA256\n{}\n{}\n{}",
        ts,
        scope,
        hex_of(&Sha256::digest(canonical.as_bytes()))
    );
    let k_date = hmac_oracle(b"TC3SECRET", date.as_bytes());
    let k_service = hmac_oracle(&k_date, b"tmt");
    let k_signing = hmac_oracle(&k_service, b"tc3_request");
    let signature = hex_of(&hmac_oracle(&k_signing, to_sign.as_bytes()));
    let expected = format!(
        "TC3-HMAC-SHA256 Credential=AKID/{}, SignedHeaders=content-type;host, Signature={}",
        scope, signature
    );
    assert_eq!(auth, expected);
}

#[test]
fn qq_answers_and_settings() {
    let r = qq_outcome(Some(("AuthFailure".to_string(), "bad key".to_string())), None);
    assert_eq!(translation_message(r.unwrap_err()), "QQ AuthFailure: bad key");
    assert_eq!(qq_outcome(None, Some("Hallo".to_string())).unwrap(), "Hallo");
    assert_eq!(translation_message(qq_outcome(None, None).unwrap_err()), "invalid QQ response");
    let mut c = QqConfig::default();
    assert_eq!(config_message(QqTranslator::new(&c).err().unwrap()), "QQ secret_id not configured");
    c.secret_id = Some("i".to_string());
    assert_eq!(config_message(QqTranslator::new(&c).err().unwrap()), "QQ secret_key not configured");
    c.secret_key = Some("k".to_string());
    assert_eq!(QqTranslator::new(&c).ok().unwrap().region, "ap-beijing");
}

#[test]
fn local_cleans_unknown_tokens() {
    assert_eq!(clean_unk("a <unk> b  c<unk>d"), "a b c d");
    assert_eq!(clean_unk("<unk><unk>"), "");
    assert_eq!(clean_unk("  Bonjour   le monde "), "Bonjour le monde");
}

#[test]
fn local_decoding_length() {
    let long = "abcd".repeat(25);
    assert_eq!(compute_max_decoding_length(&[long.clone()], 512), 60);
    assert_eq!(compute_max_decoding_length(&[long], 30), 30);
    assert_eq!(compute_max_decoding_length(&[], 512), 20);
    assert_eq!(compute_max_decoding_length(&["ab".to_string()], 5), 20);
}

#[test]
fn local_model_is_unavailable() {
    assert_eq!(
        config_message(LocalTranslator::new("ct2").err().unwrap()),
        "CT2 format not enabled. Compile with --features ct2rs"
    );
    assert_eq!(
        config_message(LocalTranslator::new("gguf").err().unwrap()),
        "Unsupported format: gguf"
    );
}

#[test]
fn prompts_and_errors() {
    assert_eq!(
        PromptBuilder::build_system("en", "fr", None),
        [PROMPT_HEAD, " from en to fr. Provide only translated text."].concat()
    );
    assert_eq!(
        PromptBuilder::build_system("en", "fr", Some("UI labels")),
        [PROMPT_HEAD, " from en to fr. Context: UI labels. Provide only translated text."].concat()
    );
    assert_eq!(
        translation_message(http_failure("DeepL", "403 Forbidden", "denied")),
        "DeepL 403 Forbidden: denied"
    );
    assert_eq!(translation_message(translation_error("boom")), "boom");
    assert_eq!(first_or(vec!["a".to_string(), "b".to_string()], "none").unwrap(), "a");
    assert_eq!(translation_message(first_or(vec![], "none").unwrap_err()), "none");
    assert_eq!(trim_end_slashes("http://x///"), "http://x");
    assert_eq!(trim_end_slashes("///"), "");
}

#[test]
fn error_messages() {
    assert_eq!(
        ZelligError::TranslationError("x".to_string()).message(),
        "translation failed: x"
    );
    assert_eq!(ZelligError::ConfigError("x".to_string()).message(), "configuration error: x");
    assert_eq!(ZelligError::AiError("x".to_string()).message(), "AI provider error: x");
    assert_eq!(ZelligError::ModelError("x".to_string()).message(), "model error: x");
    assert_eq!(ZelligError::DownloadError("x".to_string()).message(), "download error: x");
    assert_eq!(
        ZelligError::DetectionError("x".to_string()).message(),
        "language detection error: x"
    );
    let io = std::io::Error::new(std::io::ErrorKind::Other, "disk");
    assert_eq!(ZelligError::IoError(io).message(), "IO error: disk");
}

#[test]
fn google_answer_reads_the_body() {
    assert_eq!(google_answer(br#"[[["Bon","Good",null],["jour","day"]],null,"en"]"#).unwrap(), "Bonjour");
    assert_eq!(
        translation_message(google_answer(br#"[null]"#).unwrap_err()),
        "invalid Google response"
    );
    assert_eq!(
        translation_message(google_answer(br#"[[[1]]]"#).unwrap_err()),
        "empty translation"
    );
    assert!(google_answer(b"not json").is_err());
}

#[test]
fn qq_request_body_and_signature() {
    let (payload, auth) = qq_request("Hi \"there\"", "en", "zh", "AKID", "SECRET", 1700000000, "ap-beijing");
    let body: sonic_rs::Value = sonic_rs::from_str(&payload).unwrap();
    assert_eq!(body.as_object().map(|o| o.len()), Some(4));
    assert_eq!(body.get("SourceText").and_then(|x| x.as_str()), Some("Hi \"there\""));
    assert_eq!(body.get("Source").and_then(|x| x.as_str()), Some("en"));
    assert_eq!(body.get("Target").and_then(|x| x.as_str()), Some("zh"));
    assert_eq!(body.get("ProjectId").and_then(|x| x.as_u64()), Some(0));
    assert_eq!(auth, tc3_authorization("AKID", "SECRET", &payload, 1700000000, "ap-beijing"));
}
