//! Configuration derivations: endpoints, effective models, size display.

use cosq::config::{AiConfig, AiProvider, format_model_size};

fn ai(provider: AiProvider) -> AiConfig {
    AiConfig {
        provider,
        model: None,
        account: None,
        deployment: None,
        endpoint: None,
        subscription: None,
        resource_group: None,
        api_version: "2024-12-01-preview".to_string(),
        ollama_url: None,
    }
}

#[test]
fn test_ai_config_endpoint() {
    let mut config = ai(AiProvider::AzureOpenai);
    config.account = Some("my-ai-services".to_string());
    config.deployment = Some("gpt-4o-mini".to_string());
    assert_eq!(
        config.openai_endpoint().as_deref(),
        Some("https://my-ai-services.openai.azure.com")
    );
}

#[test]
fn test_ai_config_endpoint_override() {
    let mut config = ai(AiProvider::AzureOpenai);
    config.account = Some("my-ai-services".to_string());
    config.deployment = Some("gpt-4o-mini".to_string());
    config.endpoint = Some("https://custom.openai.azure.com/".to_string());
    assert_eq!(
        config.openai_endpoint().as_deref(),
        Some("https://custom.openai.azure.com")
    );
}

#[test]
fn test_ai_provider_defaults() {
    assert_eq!(AiProvider::Assistant.default_model(), Some("sonnet"));
    assert_eq!(AiProvider::Codex.default_model(), Some("o4-mini"));
    assert_eq!(AiProvider::Copilot.default_model(), Some("gpt-4.1"));
    assert_eq!(AiProvider::Ollama.default_model(), None);
    assert_eq!(AiProvider::AzureOpenai.default_model(), None);
}

#[test]
fn test_effective_model_configured() {
    let mut config = ai(AiProvider::Assistant);
    config.model = Some("opus".to_string());
    assert_eq!(config.effective_model().as_deref(), Some("opus"));
}

#[test]
fn test_effective_model_default() {
    let config = ai(AiProvider::Assistant);
    assert_eq!(config.effective_model().as_deref(), Some("sonnet"));
}

#[test]
fn test_ollama_base_url() {
    let config = ai(AiProvider::Ollama);
    assert_eq!(config.ollama_base_url(), "http://localhost:11434");
    let mut custom = ai(AiProvider::Ollama);
    custom.ollama_url = Some("http://my-server:11434".to_string());
    assert_eq!(custom.ollama_base_url(), "http://my-server:11434");
}

#[test]
fn test_format_model_size() {
    assert_eq!(format_model_size(3_300_000_000), "3.3 GB");
    assert_eq!(format_model_size(500_000_000), "500 MB");
    assert_eq!(format_model_size(1024), "1024 B");
}

#[test]
fn test_provider_display_names() {
    assert_eq!(AiProvider::AzureOpenai.display_name(), "Azure OpenAI");
    assert_eq!(AiProvider::Ollama.display_name(), "Ollama");
    assert_eq!(AiProvider::Assistant.binary_name(), Some("assistant"));
    assert_eq!(AiProvider::AzureOpenai.binary_name(), None);
    assert_eq!(AiProvider::all().len(), 5);
}
