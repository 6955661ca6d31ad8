use mimo::base64::{base64_encode, base64_encoded_len};
use mimo::dpapi::{decrypt_string, encrypt_string};
use mimo::prompt::{build_prompt, PromptTemplate};
use mimo::provider::{detect_provider, ServiceProvider};

/// A reversible stand-in for the platform's data-protection service.
fn seal(data: &[u8]) -> Result<Vec<u8>, String> {
    Ok(data.iter().map(|b| b ^ 0x5a).collect())
}

#[test]
fn test_base64_encode() {
    assert_eq!(base64_encode(b""), "");
    assert_eq!(base64_encode(b"f"), "Zg==");
    assert_eq!(base64_encode(b"fo"), "Zm8=");
    assert_eq!(base64_encode(b"foo"), "Zm9v");
}

#[test]
fn test_base64_encoded_len() {
    assert_eq!(base64_encoded_len(0), 0);
    assert_eq!(base64_encoded_len(1), 4);
    assert_eq!(base64_encoded_len(2), 4);
    assert_eq!(base64_encoded_len(3), 4);
    assert_eq!(base64_encoded_len(4), 8);
}

#[test]
fn test_roundtrip() {
    let original = "sk-test-api-key-12345";
    let encrypted = encrypt_string(original, &seal).unwrap();
    assert_ne!(encrypted, original);
    let decrypted = decrypt_string(&encrypted, &seal).unwrap();
    assert_eq!(decrypted, original);
}

#[test]
fn test_empty_string() {
    assert_eq!(encrypt_string("", &seal).unwrap(), "");
    assert_eq!(decrypt_string("", &seal).unwrap(), "");
}

#[test]
fn test_build_prompt() {
    let template = PromptTemplate {
        system: "System".to_string(),
        user_prefix: "Prefix".to_string(),
        user_suffix: "Suffix".to_string(),
    };
    let result = build_prompt(&template, "Input");
    assert!(result.contains("System"));
    assert!(result.contains("Prefix"));
    assert!(result.contains("Input"));
    assert!(result.contains("Suffix"));
}

#[test]
fn test_build_prompt_empty_system() {
    let template = PromptTemplate {
        system: String::new(),
        user_prefix: "Prefix".to_string(),
        user_suffix: String::new(),
    };
    let result = build_prompt(&template, "Input");
    assert!(!result.contains("System"));
    assert!(result.contains("Prefix"));
    assert!(result.contains("Input"));
}

#[test]
fn test_detect_provider() {
    assert!(matches!(detect_provider("sk-xxx"), ServiceProvider::MimoApi));
    assert!(matches!(detect_provider("tp-xxx"), ServiceProvider::MimoTokenPlan));
    assert!(matches!(detect_provider("other"), ServiceProvider::MimoApi));
}
