//! Configuration data: the account connection details, optional defaults,
//! and the AI-provider settings, with the pure derivations over them.
//! Reading and writing the configuration file is left to the surrounding
//! program.

use vstd::prelude::*;
use vstd::string::{StringExecFns, StrSliceExecFns};
use crate::text::{chars_of, string_of_chars, is_space};

verus! {

/// Database account connection details.
#[derive(Debug)]
pub struct AccountConfig {
    /// Account name.
    pub name: String,
    /// Subscription identifier.
    pub subscription: String,
    /// Resource group name.
    pub resource_group: String,
    /// Account endpoint URL.
    pub endpoint: String,
}

/// AI provider backends for query generation.
#[derive(Clone, Copy, Debug, PartialEq, Eq, Structural)]
pub enum AiProvider {
    AzureOpenai,
    Assistant,
    Codex,
    Copilot,
    Ollama,
}

impl AiProvider {
    /// Human-readable name for display.
    pub fn display_name(&self) -> (r: &'static str)
        ensures
            r@ == (match self {
                AiProvider::AzureOpenai => "Azure OpenAI"@,
                AiProvider::Assistant => "Assistant"@,
                AiProvider::Codex => "Codex"@,
                AiProvider::Copilot => "Copilot"@,
                AiProvider::Ollama => "Ollama"@,
            }),
    {
        match self {
            AiProvider::AzureOpenai => "Azure OpenAI",
            AiProvider::Assistant => "Assistant",
            AiProvider::Codex => "Codex",
            AiProvider::Copilot => "Copilot",
            AiProvider::Ollama => "Ollama",
        }
    }

    /// Short description of the provider.
    pub fn description(&self) -> (r: &'static str)
        ensures
            r@ == (match self {
                AiProvider::AzureOpenai => "Azure OpenAI API (requires Azure subscription)"@,
                AiProvider::Assistant => "Assistant agent via local CLI"@,
                AiProvider::Codex => "OpenAI Codex via local CLI"@,
                AiProvider::Copilot => "GitHub Copilot via local CLI"@,
                AiProvider::Ollama => "Local LLMs via Ollama"@,
            }),
    {
        match self {
            AiProvider::AzureOpenai => "Azure OpenAI API (requires Azure subscription)",
            AiProvider::Assistant => "Assistant agent via local CLI",
            AiProvider::Codex => "OpenAI Codex via local CLI",
            AiProvider::Copilot => "GitHub Copilot via local CLI",
            AiProvider::Ollama => "Local LLMs via Ollama",
        }
    }

    /// Binary name to check for availability; `None` for API-only
    /// providers.
    pub fn binary_name(&self) -> (r: Option<&'static str>)
        ensures
            match self {
                AiProvider::AzureOpenai => r is None,
                AiProvider::Assistant => r matches Some(b) && b@ == "assistant"@,
                AiProvider::Codex => r matches Some(b) && b@ == "codex"@,
                AiProvider::Copilot => r matches Some(b) && b@ == "copilot"@,
                AiProvider::Ollama => r matches Some(b) && b@ == "ollama"@,
            },
    {
        match self {
            AiProvider::AzureOpenai => None,
            AiProvider::Assistant => Some("assistant"),
            AiProvider::Codex => Some("codex"),
            AiProvider::Copilot => Some("copilot"),
            AiProvider::Ollama => Some("ollama"),
        }
    }

    /// Default model recommendation for the provider; `None` when the
    /// operator must choose.
    pub fn default_model(&self) -> (r: Option<&'static str>)
        ensures
            match self {
                AiProvider::AzureOpenai => r is None,
                AiProvider::Assistant => r matches Some(m) && m@ == "sonnet"@,
                AiProvider::Codex => r matches Some(m) && m@ == "o4-mini"@,
                AiProvider::Copilot => r matches Some(m) && m@ == "gpt-4.1"@,
                AiProvider::Ollama => r is None,
            },
    {
        match self {
            AiProvider::AzureOpenai => None,
            AiProvider::Assistant => Some("sonnet"),
            AiProvider::Codex => Some("o4-mini"),
            AiProvider::Copilot => Some("gpt-4.1"),
            AiProvider::Ollama => None,
        }
    }

    /// All known providers, local CLI agents first.
    pub fn all() -> (r: Vec<AiProvider>)
        ensures
            r@ =~= seq![
                AiProvider::Assistant,
                AiProvider::Codex,
                AiProvider::Copilot,
                AiProvider::Ollama,
                AiProvider::AzureOpenai,
            ],
    {
        let mut v: Vec<AiProvider> = Vec::new();
        v.push(AiProvider::Assistant);
        v.push(AiProvider::Codex);
        v.push(AiProvider::Copilot);
        v.push(AiProvider::Ollama);
        v.push(AiProvider::AzureOpenai);
        v
    }
}

/// AI settings for natural language query generation.
#[derive(Debug)]
pub struct AiConfig {
    /// Backend provider.
    pub provider: AiProvider,
    /// Configured model, when any.
    pub model: Option<String>,
    /// AI services account name.
    pub account: Option<String>,
    /// Model deployment name.
    pub deployment: Option<String>,
    /// Custom endpoint URL, overriding the account-derived one.
    pub endpoint: Option<String>,
    /// Subscription identifier for discovery.
    pub subscription: Option<String>,
    /// Resource group for discovery.
    pub resource_group: Option<String>,
    /// API version string.
    pub api_version: String,
    /// Local model server URL.
    pub ollama_url: Option<String>,
}

/// `s` with trailing `/` characters removed.
pub open spec fn trim_trailing_slash(s: Seq<char>) -> Seq<char>
    decreases s.len(),
{
    if s.len() > 0 && s.last() == '/' {
        trim_trailing_slash(s.drop_last())
    } else {
        s
    }
}

/// Removes trailing slashes from a string.
fn strip_trailing_slashes(s: &str) -> (r: String)
    ensures
        r@ == trim_trailing_slash(s@),
{
    let cs: Vec<char> = chars_of(s);
    let mut n: usize = cs.len();
    proof {
        assert(s@.take(n as int) =~= s@);
    }
    while n > 0 && cs[n - 1] == '/'
        invariant
            n <= cs@.len(),
            cs@ == s@,
            trim_trailing_slash(s@) == trim_trailing_slash(s@.take(n as int)),
        decreases n,
    {
        proof {
            assert(s@.take(n as int).last() == s@[n - 1]);
            assert(s@.take(n as int).drop_last() =~= s@.take(n - 1));
        }
        n -= 1;
    }
    let out: Vec<char> = crate::stored_query::sub_chars(&cs, 0, n);
    proof {
        if n > 0 {
            assert(s@.take(n as int).last() == s@[n - 1]);
        }
        assert(trim_trailing_slash(s@.take(n as int)) == s@.take(n as int));
        assert(s@.take(cs@.len() as int) =~= s@);
    }
    string_of_chars(&out)
}

impl AiConfig {
    /// The Azure OpenAI endpoint URL: the configured endpoint with trailing
    /// slashes removed, or a URL derived from the account name.
    pub fn openai_endpoint(&self) -> (r: Option<String>)
        ensures
            match self.endpoint {
                Some(ep) => r matches Some(u) && u@ == trim_trailing_slash(ep@),
                None => match self.account {
                    Some(a) => r matches Some(u) && u@ == "https://"@ + a@
                        + ".openai.azure.com"@,
                    None => r is None,
                },
            },
    {
        if let Some(ep) = &self.endpoint {
            Some(strip_trailing_slashes(ep.as_str()))
        } else if let Some(a) = &self.account {
            let mut u: String = String::from_str("https://");
            u.append(a.as_str());
            u.append(".openai.azure.com");
            Some(u)
        } else {
            None
        }
    }

    /// The effective model: the configured one, else the provider default.
    pub fn effective_model(&self) -> (r: Option<String>)
        ensures
            match self.model {
                Some(m) => r matches Some(out) && out@ == m@,
                None => match self.provider {
                    AiProvider::Assistant => r matches Some(out) && out@ == "sonnet"@,
                    AiProvider::Codex => r matches Some(out) && out@ == "o4-mini"@,
                    AiProvider::Copilot => r matches Some(out) && out@ == "gpt-4.1"@,
                    _ => r is None,
                },
            },
    {
        if let Some(m) = &self.model {
            Some(m.clone())
        } else {
            match self.provider.default_model() {
                Some(d) => Some(String::from_str(d)),
                None => None,
            }
        }
    }

    /// The local model server URL, with its default.
    pub fn ollama_base_url(&self) -> (r: String)
        ensures
            match self.ollama_url {
                Some(u) => r@ == u@,
                None => r@ == "http://localhost:11434"@,
            },
    {
        match &self.ollama_url {
            Some(u) => u.clone(),
            None => String::from_str("http://localhost:11434"),
        }
    }
}

/// Top-level configuration.
#[derive(Debug)]
pub struct Config {
    /// Account connection details.
    pub account: AccountConfig,
    /// Default database name.
    pub database: Option<String>,
    /// Default container name.
    pub container: Option<String>,
    /// AI settings, when configured.
    pub ai: Option<AiConfig>,
}

/// Output format for query results.
#[derive(Clone, Copy, Debug, PartialEq, Eq, Structural)]
pub enum OutputFormat {
    /// Pretty-printed JSON array.
    Json,
    /// Compact JSON, one document per line.
    JsonCompact,
    /// Columnar table.
    Table,
    /// Comma-separated values.
    Csv,
    /// Template from the stored query or a template file.
    Template,
}

/// A model's size rendered for humans: gigabytes with one decimal, whole
/// megabytes, or bare bytes, rounding half away from zero.
pub open spec fn model_size_spec(bytes: nat) -> Seq<char> {
    if bytes >= 1_000_000_000 {
        let tenths = (bytes + 50_000_000) / 100_000_000;
        crate::render::dec_digits(tenths / 10) + seq!['.'] + seq![
            crate::render::digit_char((tenths % 10) as int),
        ] + " GB"@
    } else if bytes >= 1_000_000 {
        crate::render::dec_digits((bytes + 500_000) / 1_000_000) + " MB"@
    } else {
        crate::render::dec_digits(bytes) + " B"@
    }
}

/// Formats a model size in bytes for display.
pub fn format_model_size(bytes: u64) -> (r: String)
    ensures
        r@ == model_size_spec(bytes as nat),
{
    if bytes >= 1_000_000_000 {
        let tenths: u64 = ((bytes as u128 + 50_000_000) / 100_000_000) as u64;
        let mut v: Vec<char> = crate::render::digits_u64(tenths / 10);
        v.push('.');
        let frac: u64 = tenths % 10;
        let mut out: String = string_of_chars(&v);
        let fc: Vec<char> = crate::render::digits_u64(frac);
        let ftxt: String = string_of_chars(&fc);
        out.append(ftxt.as_str());
        out.append(" GB");
        proof {
            assert(crate::render::dec_digits(frac as nat) =~= seq![
                crate::render::digit_char(frac as int),
            ]);
            assert(out@ =~= model_size_spec(bytes as nat));
        }
        out
    } else if bytes >= 1_000_000 {
        let mb: u64 = (bytes + 500_000) / 1_000_000;
        let v: Vec<char> = crate::render::digits_u64(mb);
        let mut out: String = string_of_chars(&v);
        out.append(" MB");
        proof {
            assert(out@ =~= model_size_spec(bytes as nat));
        }
        out
    } else {
        let v: Vec<char> = crate::render::digits_u64(bytes);
        let mut out: String = string_of_chars(&v);
        out.append(" B");
        proof {
            assert(out@ =~= model_size_spec(bytes as nat));
        }
        out
    }
}

} // verus!
