//! Embeddings: where vectors come from, and which local model a name stands
//! for.

use crate::config::HiveMindConfig;
use crate::extraction::{is_address, is_reachable, reachable};
use crate::text::{chars_of, copy_opt_text, is_prefix, opt_text, same_text, slice_chars, text_of};
use vstd::prelude::*;
use vstd::string::*;

verus! {

/// Where embedding vectors come from.
#[derive(Debug)]
pub struct EmbeddingConfig {
    pub provider: String,
    pub model: String,
    pub api_key: Option<String>,
    pub base_url: String,
    pub dimensions: Option<u32>,
    pub cache_dir: Option<String>,
}

/// The position `at` holds the first colon of the text.
pub open spec fn first_colon(s: Seq<char>, at: int) -> bool {
    &&& 0 <= at < s.len()
    &&& s[at] == ':'
    &&& forall|j: int| 0 <= j < at ==> s[j] != ':'
}

/// The text reads as `provider`, a colon and `model`, split at its first
/// colon; a text without a colon is the model of the provider "local".
pub open spec fn names_model(s: Seq<char>, provider: Seq<char>, model: Seq<char>) -> bool {
    ||| exists|at: int| first_colon(s, at) && provider == s.take(at) && model == s.skip(at + 1)
    ||| (forall|j: int| 0 <= j < s.len() ==> s[j] != ':') && provider == "local"@ && model == s
}

/// The address of an embedding provider's service: none for the local
/// model, that of a known provider, the provider itself where it is an
/// address, else that of the default provider.
pub open spec fn embedding_base_url(provider: Seq<char>) -> Seq<char> {
    if provider == "local"@ {
        ""@
    } else if provider == "openai"@ {
        "https://api.openai.com/v1"@
    } else if provider == "ollama"@ {
        "http://localhost:11434/v1"@
    } else if provider == "codegate"@ {
        "http://localhost:9212/v1"@
    } else if is_prefix("http"@, provider) {
        provider
    } else {
        "https://api.openai.com/v1"@
    }
}

impl EmbeddingConfig {
    /// The embedding settings that the service settings imply.
    pub fn from_hivemind_config(config: &HiveMindConfig) -> (c: Self)
        ensures
            names_model(config.embedding_model@, c.provider@, c.model@),
            c.base_url@ == embedding_base_url(c.provider@),
            opt_text(c.api_key) == (if config.embedding_api_key is Some {
                opt_text(config.embedding_api_key)
            } else {
                opt_text(config.llm_api_key)
            }),
            c.dimensions is None,
            opt_text(c.cache_dir) == Some(config.data_dir@ + "/embeddings"@),
    {
        let chars = chars_of(config.embedding_model.as_str());
        let mut at: usize = 0;
        while at < chars.len() && chars[at] != ':'
            invariant
                at <= chars.len(),
                forall|j: int| 0 <= j < at ==> chars@[j] != ':',
            decreases chars.len() - at,
        {
            at += 1;
        }
        let (provider, model) = if at < chars.len() {
            let head = slice_chars(&chars, 0, at);
            let tail = slice_chars(&chars, at + 1, chars.len());
            proof {
                assert(first_colon(chars@, at as int));
                assert(head@ =~= chars@.take(at as int));
                assert(tail@ =~= chars@.skip(at + 1));
            }
            (text_of(&head), text_of(&tail))
        } else {
            (String::from_str("local"), config.embedding_model.clone())
        };
        let p = provider.as_str();
        let base_url = if same_text(p, "local") {
            String::new()
        } else if same_text(p, "openai") {
            String::from_str("https://api.openai.com/v1")
        } else if same_text(p, "ollama") {
            String::from_str("http://localhost:11434/v1")
        } else if same_text(p, "codegate") {
            String::from_str("http://localhost:9212/v1")
        } else if is_address(p) {
            provider.clone()
        } else {
            String::from_str("https://api.openai.com/v1")
        };
        let api_key = match &config.embedding_api_key {
            Some(k) => Some(k.clone()),
            None => copy_opt_text(&config.llm_api_key),
        };
        proof {
            reveal_strlit("");
            assert(""@ =~= Seq::<char>::empty());
        }
        EmbeddingConfig {
            provider,
            model,
            api_key,
            base_url,
            dimensions: None,
            cache_dir: Some(config.data_dir.clone().concat("/embeddings")),
        }
    }

    /// Whether vectors can be had: a local model is loaded, or a key is
    /// configured, or the service runs on this machine.
    pub fn is_available(&self, local_model_loaded: bool) -> (r: bool)
        ensures
            r == (local_model_loaded || reachable(opt_text(self.api_key), self.base_url@)),
    {
        local_model_loaded || is_reachable(&self.api_key, self.base_url.as_str())
    }
}

/// A model that can run on this machine.
#[derive(Debug, Clone, Copy, PartialEq, Eq, Structural)]
pub enum LocalModel {
    AllMiniLML6V2,
    AllMiniLML6V2Q,
    AllMiniLML12V2,
    AllMiniLML12V2Q,
    BGESmallENV15,
    BGEBaseENV15,
    BGELargeENV15,
    BGEM3,
    SnowflakeArcticEmbedXS,
    SnowflakeArcticEmbedS,
    SnowflakeArcticEmbedM,
    NomicEmbedTextV15,
    NomicEmbedTextV1,
    GTEBaseENV15,
    GTELargeENV15,
    MultilingualE5Small,
    MultilingualE5Base,
    JinaEmbeddingsV2BaseCode,
    JinaEmbeddingsV2BaseEN,
    EmbeddingGemma300M,
}

/// The local model that a name stands for; a name that stands for none gets
/// the default model.
pub open spec fn local_model_for(name: Seq<char>) -> LocalModel {
    if name == "all-MiniLM-L6-v2"@ || name == "AllMiniLML6V2"@ || name == "minilm"@ {
        LocalModel::AllMiniLML6V2
    } else if name == "all-MiniLM-L6-v2-q"@ || name == "AllMiniLML6V2Q"@ || name == "minilm-q"@ {
        LocalModel::AllMiniLML6V2Q
    } else if name == "all-MiniLM-L12-v2"@ || name == "AllMiniLML12V2"@ {
        LocalModel::AllMiniLML12V2
    } else if name == "all-MiniLM-L12-v2-q"@ || name == "AllMiniLML12V2Q"@ {
        LocalModel::AllMiniLML12V2Q
    } else if name == "bge-small-en-v1.5"@ || name == "BGESmallENV15"@ || name == "bge-small"@ {
        LocalModel::BGESmallENV15
    } else if name == "bge-base-en-v1.5"@ || name == "BGEBaseENV15"@ || name == "bge-base"@ {
        LocalModel::BGEBaseENV15
    } else if name == "bge-large-en-v1.5"@ || name == "BGELargeENV15"@ || name == "bge-large"@ {
        LocalModel::BGELargeENV15
    } else if name == "bge-m3"@ || name == "BGEM3"@ {
        LocalModel::BGEM3
    } else if name == "snowflake-arctic-embed-xs"@ || name == "arctic-xs"@ {
        LocalModel::SnowflakeArcticEmbedXS
    } else if name == "snowflake-arctic-embed-s"@ || name == "arctic-s"@ {
        LocalModel::SnowflakeArcticEmbedS
    } else if name == "snowflake-arctic-embed-m"@ || name == "arctic-m"@ {
        LocalModel::SnowflakeArcticEmbedM
    } else if name == "nomic-embed-text-v1.5"@ || name == "nomic-v1.5"@ {
        LocalModel::NomicEmbedTextV15
    } else if name == "nomic-embed-text-v1"@ || name == "nomic-v1"@ {
        LocalModel::NomicEmbedTextV1
    } else if name == "gte-base-en-v1.5"@ || name == "gte-base"@ {
        LocalModel::GTEBaseENV15
    } else if name == "gte-large-en-v1.5"@ || name == "gte-large"@ {
        LocalModel::GTELargeENV15
    } else if name == "multilingual-e5-small"@ || name == "e5-small"@ {
        LocalModel::MultilingualE5Small
    } else if name == "multilingual-e5-base"@ || name == "e5-base"@ {
        LocalModel::MultilingualE5Base
    } else if name == "jina-embeddings-v2-base-code"@ || name == "jina-code"@ {
        LocalModel::JinaEmbeddingsV2BaseCode
    } else if name == "jina-embeddings-v2-base-en"@ || name == "jina-en"@ {
        LocalModel::JinaEmbeddingsV2BaseEN
    } else if name == "embedding-gemma-300m"@ || name == "gemma-300m"@ {
        LocalModel::EmbeddingGemma300M
    } else {
        LocalModel::AllMiniLML6V2
    }
}

/// The local model that a name stands for.
pub fn resolve_local_model(name: &str) -> (m: LocalModel)
    ensures
        m == local_model_for(name@),
{
    if same_text(name, "all-MiniLM-L6-v2") || same_text(name, "AllMiniLML6V2") || same_text(name, "minilm") {
        LocalModel::AllMiniLML6V2
    } else if same_text(name, "all-MiniLM-L6-v2-q") || same_text(name, "AllMiniLML6V2Q") || same_text(name, "minilm-q") {
        LocalModel::AllMiniLML6V2Q
    } else if same_text(name, "all-MiniLM-L12-v2") || same_text(name, "AllMiniLML12V2") {
        LocalModel::AllMiniLML12V2
    } else if same_text(name, "all-MiniLM-L12-v2-q") || same_text(name, "AllMiniLML12V2Q") {
        LocalModel::AllMiniLML12V2Q
    } else if same_text(name, "bge-small-en-v1.5") || same_text(name, "BGESmallENV15") || same_text(name, "bge-small") {
        LocalModel::BGESmallENV15
    } else if same_text(name, "bge-base-en-v1.5") || same_text(name, "BGEBaseENV15") || same_text(name, "bge-base") {
        LocalModel::BGEBaseENV15
    } else if same_text(name, "bge-large-en-v1.5") || same_text(name, "BGELargeENV15") || same_text(name, "bge-large") {
        LocalModel::BGELargeENV15
    } else if same_text(name, "bge-m3") || same_text(name, "BGEM3") {
        LocalModel::BGEM3
    } else if same_text(name, "snowflake-arctic-embed-xs") || same_text(name, "arctic-xs") {
        LocalModel::SnowflakeArcticEmbedXS
    } else if same_text(name, "snowflake-arctic-embed-s") || same_text(name, "arctic-s") {
        LocalModel::SnowflakeArcticEmbedS
    } else if same_text(name, "snowflake-arctic-embed-m") || same_text(name, "arctic-m") {
        LocalModel::SnowflakeArcticEmbedM
    } else if same_text(name, "nomic-embed-text-v1.5") || same_text(name, "nomic-v1.5") {
        LocalModel::NomicEmbedTextV15
    } else if same_text(name, "nomic-embed-text-v1") || same_text(name, "nomic-v1") {
        LocalModel::NomicEmbedTextV1
    } else if same_text(name, "gte-base-en-v1.5") || same_text(name, "gte-base") {
        LocalModel::GTEBaseENV15
    } else if same_text(name, "gte-large-en-v1.5") || same_text(name, "gte-large") {
        LocalModel::GTELargeENV15
    } else if same_text(name, "multilingual-e5-small") || same_text(name, "e5-small") {
        LocalModel::MultilingualE5Small
    } else if same_text(name, "multilingual-e5-base") || same_text(name, "e5-base") {
        LocalModel::MultilingualE5Base
    } else if same_text(name, "jina-embeddings-v2-base-code") || same_text(name, "jina-code") {
        LocalModel::JinaEmbeddingsV2BaseCode
    } else if same_text(name, "jina-embeddings-v2-base-en") || same_text(name, "jina-en") {
        LocalModel::JinaEmbeddingsV2BaseEN
    } else if same_text(name, "embedding-gemma-300m") || same_text(name, "gemma-300m") {
        LocalModel::EmbeddingGemma300M
    } else {
        LocalModel::AllMiniLML6V2
    }
}

} // verus!
