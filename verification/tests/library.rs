use mimo::api::{
    chat_completions_url, completion_text, falls_back_to_plain, is_success_status,
    prepare_chat, prepare_transcription, send_error, status_error, stream_delta, token_count_text,
    ApiConfig, ApiError, ChatCompletionResponse, Choice, ContentPart, Delta, Message, Usage,
};
use mimo::audio::{slice_fits, wav_data_url, AudioError, MAX_BASE64_BYTES};
use mimo::base64::{base64_decode, base64_encode};
use mimo::commands::{
    chat_system_prompt, default_polish_prompt, default_prompt_template, open_key, protect_config,
    provider_info_for_key, provider_list, restore_config, seal_key, RetryBudget, CHAT_ATTEMPTS,
};
use mimo::dpapi::{decrypt_string, encrypt_string};
use mimo::ffmpeg::{
    audio_info_from_params, is_target_format, pcm16_samples, pcm_byte_span, wav_frame_count,
    FfmpegError, WavDataScan, WavScanAction,
};
use mimo::log::{format_log_line, log_file_name};
use mimo::prompt::{default_punctuation_template, default_transcription_template, PromptTemplate};
use mimo::provider::{get_providers, ServiceProvider};
use mimo::rate_limiter::{RpmWindow, WINDOW_NANOS};
use mimo::sse::{classify_line, DataLine, SseDecoder, SseLine};
use mimo::tag_filter::TagFilter;
use mimo::{ApiParams, AppConfig};

fn seal(data: &[u8]) -> Result<Vec<u8>, String> {
    Ok(data.iter().map(|b| b ^ 0x5a).collect())
}

fn refuse(_data: &[u8]) -> Result<Vec<u8>, String> {
    Err("CryptProtectData failed".to_string())
}

fn config() -> ApiConfig {
    ApiConfig {
        base_url: "https://api.example.com/v1/".to_string(),
        api_key: "sk-1".to_string(),
        model: "mimo-v2.5".to_string(),
        language: None,
    }
}

// ---------------- tag filter ----------------

#[test]
fn think_block_is_dropped() {
    let mut f = TagFilter::new();
    assert_eq!(f.process("<think>reasoning</think>hello"), "hello");
}

#[test]
fn think_block_in_capitals_is_dropped() {
    let mut f = TagFilter::new();
    assert_eq!(f.process("<THINK>x</Think>y"), "y");
}

#[test]
fn other_tags_lose_only_the_tag() {
    let mut f = TagFilter::new();
    assert_eq!(f.process("<chinese>你好</chinese>!"), "你好!");
}

#[test]
fn tag_split_across_chunks() {
    let mut f = TagFilter::new();
    let mut out = String::new();
    for chunk in ["a<thi", "nk>skip</th", "ink>b"] {
        out.push_str(&f.process(chunk));
    }
    assert_eq!(out, "ab");
    let mut g = TagFilter::new();
    assert_eq!(g.process("a<think>skip</think>b"), out);
}

#[test]
fn empty_tag_passes_through() {
    let mut f = TagFilter::new();
    assert_eq!(f.process("x<>y"), "x<>y");
}

#[test]
fn unfinished_tag_is_held_back() {
    let mut f = TagFilter::new();
    assert_eq!(f.process("1 < 2"), "1 ");
    assert_eq!(f.process(" and >3"), "3");
    assert_eq!(f.process("z"), "z");
}

#[test]
fn whole_text_tag_by_tag() {
    let mut f = TagFilter::new();
    assert_eq!(f.process("a<b<think>x<i>y</i>z</think>c< >d</c>e<f"), "ac< >de");
}

#[test]
fn parse_tag_names() {
    assert_eq!(TagFilter::parse_tag("<Think attr=1>", false), Some("think".to_string()));
    assert_eq!(TagFilter::parse_tag("</ Think >", true), Some("think".to_string()));
    assert_eq!(TagFilter::parse_tag("<>", false), None);
    assert_eq!(TagFilter::parse_tag("</>", true), None);
    assert_eq!(TagFilter::parse_tag("<a>", true), None);
}

// ---------------- base64 ----------------

#[test]
fn base64_decode_roundtrip_and_errors() {
    let data: Vec<u8> = (0u8..=255).collect();
    let text = base64_encode(&data);
    assert_eq!(base64_decode(&text).unwrap(), data);
    assert_eq!(base64_decode(" Zm9v\nZg== ").unwrap(), b"foof".to_vec());
    assert_eq!(base64_decode("").unwrap(), Vec::<u8>::new());
    assert_eq!(base64_decode("Zm9").unwrap_err(), "Invalid base64 length");
    assert_eq!(base64_decode("Zm!v").unwrap_err(), "Invalid base64 char: !");
    assert_eq!(base64_decode("=m9v").unwrap_err(), "Invalid base64 char: =");
}

#[test]
fn base64_decode_ignores_inserted_white_space() {
    let data: Vec<u8> = (0u8..40).map(|b| b.wrapping_mul(37)).collect();
    let text = base64_encode(&data);
    for k in 0..=text.len() {
        let spaced = format!("{}\u{3000} \t\n{}", &text[..k], &text[k..]);
        assert_eq!(base64_decode(&spaced).unwrap(), data);
    }
}

// ---------------- sealed keys ----------------

#[test]
fn sealing_failure_is_reported() {
    assert_eq!(encrypt_string("key", &refuse).unwrap_err(), "CryptProtectData failed");
}

#[test]
fn bad_stored_text_is_reported() {
    assert_eq!(decrypt_string("abc", &seal).unwrap_err(), "Invalid base64 length");
    // 0xff is not UTF-8 once unsealed.
    let stored = base64_encode(&[0xffu8 ^ 0x5a]);
    let err = decrypt_string(&stored, &seal).unwrap_err();
    assert!(err.starts_with("UTF-8 decode error: "));
}

#[test]
fn config_keys_roundtrip() {
    let mut cfg = AppConfig::default();
    cfg.api_key = "sk-secret".to_string();
    cfg.provider_keys = vec![
        ("deepseek".to_string(), "sk-ds".to_string()),
        ("mimo-api".to_string(), String::new()),
    ];
    let saved = protect_config(&cfg, &seal).unwrap();
    assert!(saved.api_key.starts_with("ENC:"));
    assert_eq!(saved.provider_keys[1].1, "");
    assert_eq!(saved.provider_keys[0].0, "deepseek");
    let loaded = restore_config(&saved, &seal);
    assert_eq!(loaded.api_key, "sk-secret");
    assert_eq!(loaded.provider_keys, cfg.provider_keys);
    assert_eq!(loaded.theme, "system");
}

#[test]
fn config_key_errors() {
    let mut cfg = AppConfig::default();
    cfg.api_key = "sk-secret".to_string();
    assert_eq!(protect_config(&cfg, &refuse).unwrap_err(), "CryptProtectData failed");
    assert_eq!(seal_key("", &refuse).unwrap(), "");
    assert_eq!(open_key("plain-key", &seal), "plain-key");
    assert_eq!(open_key("ENC:!!!!", &seal), "");
}

// ---------------- api ----------------

#[test]
fn validate_reports_each_missing_field() {
    let mut c = config();
    assert!(c.validate().is_ok());
    c.model = String::new();
    assert!(matches!(c.validate(), Err(ApiError::ConfigError(m)) if m == "模型名称不能为空"));
    c.base_url = String::new();
    assert!(matches!(c.validate(), Err(ApiError::ConfigError(m)) if m == "Base URL 不能为空"));
    c.api_key = String::new();
    assert!(matches!(c.validate(), Err(ApiError::ConfigError(m)) if m == "API Key 不能为空"));
}

#[test]
fn api_defaults_and_params() {
    let d = ApiConfig::default();
    assert_eq!(d.base_url, "https://api.xiaomimimo.com/v1");
    assert_eq!(d.model, "mimo-v2.5-asr");
    assert_eq!(d.language.as_deref(), Some("auto"));
    let c: ApiConfig = ApiParams {
        base_url: "b".to_string(),
        api_key: "k".to_string(),
        model: "m".to_string(),
        language: Some("zh".to_string()),
    }
    .into();
    assert_eq!(c.language.as_deref(), Some("zh"));
    assert_eq!(c.api_key, "k");
}

#[test]
fn error_messages() {
    assert_eq!(ApiError::ConfigError("x".to_string()).message(), "配置错误: x");
    assert_eq!(ApiError::HttpError("x".to_string()).message(), "HTTP 错误: x");
    assert_eq!(ApiError::ParseError("x".to_string()).message(), "解析错误: x");
    assert_eq!(ApiError::TimeoutError.message(), "请求超时");
    let io = std::io::Error::new(std::io::ErrorKind::Other, "disk");
    assert_eq!(ApiError::from(io).message(), "IO 错误: disk");
}

#[test]
fn endpoint_url_drops_trailing_slashes() {
    assert_eq!(chat_completions_url("https://a/v1//"), "https://a/v1/chat/completions");
    assert_eq!(chat_completions_url("https://a"), "https://a/chat/completions");
}

#[test]
fn transcription_request() {
    let p = prepare_transcription("data:audio/wav;base64,AA==", &config(), true).unwrap();
    assert_eq!(p.url, "https://api.example.com/v1/chat/completions");
    assert_eq!(p.authorization, "Bearer sk-1");
    assert_eq!(p.timeout_secs, 120);
    assert_eq!(p.body.asr_language.as_deref(), Some("auto"));
    assert!(p.body.stream);
    assert!(matches!(&p.body.user_content[..], [ContentPart::InputAudio(a)] if a == "data:audio/wav;base64,AA=="));
    let q = prepare_transcription("x", &config(), false).unwrap();
    assert_eq!(q.timeout_secs, 30);
    assert!(!q.body.stream);
    let mut bad = config();
    bad.api_key = String::new();
    assert!(matches!(prepare_transcription("x", &bad, false), Err(ApiError::ConfigError(_))));
}

#[test]
fn chat_request() {
    let p = prepare_chat("sys", "hello", Some(""), &config(), Some("json_object")).unwrap();
    assert_eq!(p.body.system_prompt.as_deref(), Some("sys"));
    assert!(matches!(&p.body.user_content[..], [ContentPart::Text(t)] if t == "hello"));
    assert_eq!(p.body.response_format.as_deref(), Some("json_object"));
    assert_eq!(p.timeout_secs, 60);
    let q = prepare_chat("", "", Some("data:a"), &config(), None).unwrap();
    assert!(q.body.system_prompt.is_none());
    assert!(matches!(&q.body.user_content[..], [ContentPart::InputAudio(a)] if a == "data:a"));
    let e = prepare_chat("sys", "", None, &config(), None);
    assert!(matches!(e, Err(ApiError::ConfigError(m)) if m == "消息内容不能为空"));
}

#[test]
fn response_helpers() {
    assert!(is_success_status(200) && is_success_status(299));
    assert!(!is_success_status(404) && !is_success_status(199));
    assert!(matches!(status_error("404 Not Found", "nope"), ApiError::HttpError(m) if m == "404 Not Found: nope"));
    assert!(matches!(send_error(true, "t".to_string()), ApiError::TimeoutError));
    assert!(matches!(send_error(false, "t".to_string()), ApiError::HttpError(m) if m == "t"));
    assert!(falls_back_to_plain(&ApiError::ParseError("x".to_string())));
    assert!(!falls_back_to_plain(&ApiError::TimeoutError));
    let resp = ChatCompletionResponse {
        choices: vec![Choice {
            message: Some(Message { content: Some("text".to_string()) }),
            delta: Some(Delta { content: Some("piece".to_string()) }),
        }],
        usage: Some(Usage { total_tokens: Some(12) }),
    };
    assert_eq!(completion_text(&resp), "text");
    assert_eq!(stream_delta(&resp).as_deref(), Some("piece"));
    let empty = ChatCompletionResponse { choices: vec![], usage: None };
    assert_eq!(completion_text(&empty), "");
    assert_eq!(token_count_text(0), "0");
    assert_eq!(token_count_text(4294967295), "4294967295");
}

// ---------------- sse ----------------

#[test]
fn sse_lines_do_not_depend_on_chunks() {
    let mut a = SseDecoder::new();
    a.push_text("data: one\r\nda");
    let mut lines = a.take_lines();
    a.push_bytes("ta: two\n\ndata: [DONE]\nrest".as_bytes());
    lines.extend(a.take_lines());
    let mut b = SseDecoder::new();
    b.push_text("data: one\r\ndata: two\n\ndata: [DONE]\nrest");
    assert_eq!(lines, b.take_lines());
    assert_eq!(lines, vec!["data: one", "data: two", "", "data: [DONE]"]);
}

#[test]
fn sse_line_kinds() {
    assert!(matches!(classify_line(""), SseLine::Skip));
    assert!(matches!(classify_line("event: x"), SseLine::Skip));
    assert!(matches!(classify_line("data: [DONE]"), SseLine::Done));
    assert!(matches!(classify_line("data: {}"), SseLine::Data(d) if d == "{}"));
}

#[test]
fn sse_events() {
    let mut d = SseDecoder::new();
    let resp = |t: &str, tokens: Option<u32>| ChatCompletionResponse {
        choices: vec![Choice { message: None, delta: Some(Delta { content: Some(t.to_string()) }) }],
        usage: tokens.map(|n| Usage { total_tokens: Some(n) }),
    };
    let e1 = d.on_response("chat-chunk", &resp("<thi", None));
    assert!(e1.is_empty());
    let e2 = d.on_response("chat-chunk", &resp("nk>x</think>ok", Some(7)));
    assert_eq!(e2.len(), 2);
    assert_eq!((e2[0].event.as_str(), e2[0].payload.as_str()), ("chat-chunk", "ok"));
    assert_eq!((e2[1].event.as_str(), e2[1].payload.as_str()), ("token-update", "7"));
}

#[test]
fn sse_data_lines() {
    let mut d = SseDecoder::new();
    let ok = ChatCompletionResponse {
        choices: vec![Choice { message: None, delta: Some(Delta { content: Some("hi".to_string()) }) }],
        usage: None,
    };
    match d.on_data("transcription-chunk", "{..}", Ok(ok), true) {
        DataLine::Events(v) => {
            assert_eq!(v.len(), 1);
            assert_eq!((v[0].event.as_str(), v[0].payload.as_str()), ("transcription-chunk", "hi"));
        }
        _ => panic!("expected events"),
    }
    match d.on_data("transcription-chunk", "not json", Err("bad".to_string()), true) {
        DataLine::Failed(e) => assert!(falls_back_to_plain(&e) && e.message() == "解析错误: bad"),
        _ => panic!("expected a parse failure"),
    }
    assert!(matches!(d.on_data("chat-chunk", "not json", Err("bad".to_string()), false), DataLine::Skip));
    assert!(matches!(d.on_data("transcription-chunk", " ", Err("bad".to_string()), true), DataLine::Skip));
}

// ---------------- providers, prompts, commands ----------------

#[test]
fn providers() {
    let all = get_providers();
    assert_eq!(all.len(), 3);
    assert_eq!(all[2].id, "deepseek");
    assert!(all[2].asr_models.is_empty());
    assert_eq!(provider_list()[1].key_prefix, "tp-");
    assert_eq!(provider_info_for_key("tp-1").id, "mimo-token-plan");
    assert_eq!(provider_info_for_key("sk-1").id, "mimo-api");
    assert_eq!(ServiceProvider::DeepSeek.display_name(), "DeepSeek");
    assert_eq!(ServiceProvider::MimoTokenPlan.display_name(), "MiMo Token Plan");
}

#[test]
fn templates() {
    assert_eq!(default_transcription_template().user_prefix, "请润色以下语音转文字结果：");
    assert_eq!(default_punctuation_template().user_prefix, "请为以下文本添加标点：");
    assert!(PromptTemplate::default().user_prefix.is_empty());
    assert!(default_prompt_template("punctuation").is_ok());
    assert_eq!(default_prompt_template("other").unwrap_err(), "未知模板类型: other");
    assert_eq!(chat_system_prompt("S".to_string()), "S\n\n");
    assert_eq!(chat_system_prompt(String::new()), "");
    assert!(default_polish_prompt().starts_with("给你以下语音转写结果"));
}

#[test]
fn retry_budget() {
    let mut b = RetryBudget::new(CHAT_ATTEMPTS);
    let mut attempts = 0;
    while b.may_attempt() {
        b.record_attempt();
        attempts += 1;
    }
    assert_eq!(attempts, 3);
    assert!(b.waits_before_next());
}

// ---------------- rate limiter ----------------

#[test]
fn rpm_window() {
    let mut w = RpmWindow::new(2);
    assert_eq!(w.try_acquire(0), None);
    assert_eq!(w.try_acquire(1), None);
    assert_eq!(w.try_acquire(10), Some(WINDOW_NANOS - 10));
    assert_eq!(w.current_rpm(10), 2);
    assert_eq!(w.try_acquire(WINDOW_NANOS + 1), None);
    assert_eq!(w.current_rpm(WINDOW_NANOS + 1), 2);
    let mut unlimited = RpmWindow::new(0);
    assert_eq!(unlimited.try_acquire(5), None);
    assert_eq!(unlimited.current_rpm(5), 0);
}

#[test]
fn rpm_window_never_admits_more_than_the_limit_in_a_minute() {
    let limit = 3usize;
    let mut w = RpmWindow::new(limit);
    let step = WINDOW_NANOS / 7;
    let mut admitted: Vec<u64> = Vec::new();
    for k in 0..100u64 {
        let now = k * step;
        if w.try_acquire(now).is_none() {
            admitted.push(now);
        }
    }
    assert!(admitted.len() > limit);
    for &t in &admitted {
        let in_minute = admitted.iter().filter(|&&a| a <= t && t - a <= WINDOW_NANOS).count();
        assert!(in_minute <= limit);
    }
}

// ---------------- audio formats ----------------

fn drive(file: &[u8]) -> Result<usize, String> {
    let mut scan = WavDataScan::new();
    let mut pos = 0usize;
    let mut action = WavScanAction::Read(0);
    loop {
        match action {
            WavScanAction::Read(skip) => {
                pos += skip as usize;
                let read = if pos + 4 <= file.len() {
                    let mut b = [0u8; 4];
                    b.copy_from_slice(&file[pos..pos + 4]);
                    pos += 4;
                    Ok(b)
                } else {
                    Err(std::io::Error::new(std::io::ErrorKind::UnexpectedEof, "eof"))
                };
                action = scan.step(read);
            }
            WavScanAction::Found => return Ok(pos),
            WavScanAction::Failed(e) => return Err(e.message()),
        }
    }
}

#[test]
fn wav_data_offset() {
    let mut f = Vec::new();
    f.extend_from_slice(b"RIFF");
    f.extend_from_slice(&[0, 0, 0, 0]);
    f.extend_from_slice(b"WAVE");
    f.extend_from_slice(b"LIST");
    f.extend_from_slice(&3u32.to_le_bytes());
    f.extend_from_slice(&[1, 2, 3, 0]);
    f.extend_from_slice(b"data");
    f.extend_from_slice(&4u32.to_le_bytes());
    f.extend_from_slice(&[1, 0, 255, 255]);
    assert_eq!(drive(&f), Ok(32));
    assert_eq!(drive(b"RIFX0000WAVE"), Err("无效输出: 不是有效的 WAV 文件".to_string()));
    assert_eq!(drive(b"RIFF0000WAVE"), Err("无效输出: WAV 文件中未找到 data 块".to_string()));
    assert!(drive(b"RI").unwrap_err().starts_with("音频处理失败: "));
}

#[test]
fn pcm_and_frames() {
    assert_eq!(pcm16_samples(&[1, 0, 255, 255, 0, 128, 9]), vec![1i16, -1, i16::MIN]);
    assert_eq!(pcm_byte_span(16000, 32000, 1), (32000, 64000));
    assert_eq!(wav_frame_count(44 + 3200, Some(1), Some(16)), Some(1600));
    assert_eq!(wav_frame_count(44, None, None), None);
    assert_eq!(wav_frame_count(100, Some(1), Some(4)), None);
    let info = audio_info_from_params(Some(16000), Some(1), Some(16), "pcm_s16le".to_string(), true);
    assert!(is_target_format(&info));
    let other = audio_info_from_params(None, Some(2), None, "mp3".to_string(), false);
    assert_eq!(other.sample_rate, 0);
    assert!(!is_target_format(&other));
}

#[test]
fn audio_errors_and_urls() {
    assert_eq!(FfmpegError::InputNotFound("a.wav".to_string()).message(), "输入文件不存在: a.wav");
    assert_eq!(AudioError::EncodingError("x".to_string()).message(), "编码错误: x");
    assert_eq!(
        AudioError::from(FfmpegError::OutputDirNotFound("d".to_string())).message(),
        "输出目录不存在: d"
    );
    assert_eq!(wav_data_url(b"foo"), "data:audio/wav;base64,Zm9v");
    assert!(slice_fits(MAX_BASE64_BYTES / 4 * 3));
    assert!(!slice_fits(MAX_BASE64_BYTES / 4 * 3 + 1));
    assert!(!slice_fits(usize::MAX));
}

#[test]
fn log_format() {
    assert_eq!(format_log_line("12:00:00.000", "INFO", "hi"), "[12:00:00.000] [INFO] hi\n");
    assert_eq!(log_file_name("20240101_120000"), "mimo_20240101_120000.log");
}
