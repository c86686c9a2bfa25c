//! Token counting. The simple strategy counts whitespace-delimited segments
//! and is exact; the model-backed strategies ask a loaded subword tokenizer
//! and fall back to a length heuristic when no model is available.

use vstd::prelude::*;
use vstd::string::StrSliceExecFns;

use crate::text::{chars_vec, split_spec, split_terms};

verus! {

/// A count of tokens in a piece of content. Never negative; supports
/// addition and summation for budget arithmetic.
#[derive(Debug, Clone, Copy, PartialEq, Eq, Structural)]
pub struct TokenCount(pub u64);

impl TokenCount {
    /// Create a new token count.
    pub fn new(count: u64) -> (r: TokenCount)
        ensures
            r.0 == count,
    {
        TokenCount(count)
    }

    /// Get the count as a plain integer.
    pub fn as_u64(&self) -> (r: u64)
        ensures
            r == self.0,
    {
        self.0
    }

    /// Get the count as a usize; exact whenever the count fits.
    pub fn as_usize(&self) -> (r: usize)
        ensures
            self.0 <= usize::MAX ==> r == self.0,
    {
        if self.0 > usize::MAX as u64 {
            usize::MAX
        } else {
            self.0 as usize
        }
    }

    /// Add two token counts, checking for overflow.
    pub fn checked_add(&self, other: TokenCount) -> (r: Option<TokenCount>)
        ensures
            self.0 + other.0 <= u64::MAX ==> r == Some(TokenCount((self.0 + other.0) as u64)),
            self.0 + other.0 > u64::MAX ==> r is None,
    {
        match self.0.checked_add(other.0) {
            Some(v) => Some(TokenCount(v)),
            None => None,
        }
    }
}

/// The tokenization strategy.
#[derive(Debug, Clone, Copy, PartialEq, Eq, Structural)]
pub enum TokenizerType {
    /// Count whitespace-delimited segments; exact and deterministic.
    Simple,
    /// A GPT-2 subword model loaded from a local file.
    Gpt2,
    /// A cl100k_base subword model loaded from a local file.
    Cl100k,
}

/// The number of whitespace-delimited segments of `s`.
pub open spec fn simple_count(s: Seq<char>) -> nat {
    split_spec(s).len()
}

/// The length heuristic used when no subword model is available: a quarter
/// of the character length, rounded to the nearest integer, but at least 1.
pub open spec fn heuristic_count(len: nat) -> nat {
    let rounded = len / 4 + if len % 4 >= 2 {
        1nat
    } else {
        0nat
    };
    if rounded == 0 {
        1
    } else {
        rounded
    }
}

/// A loaded subword tokenizer model, opaque to verification. Holds the
/// tokenizers crate's model type, whose declaration this crate cannot state
/// directly.
#[verifier::external_body]
pub struct SubwordModel {
    inner: tokenizers::Tokenizer,
}

/// Relies on tokenizers' Tokenizer::from_file: loads a serialized subword
/// tokenizer; None when the file is missing or malformed.
#[verifier::external_body]
fn load_model(path: &str) -> Option<SubwordModel> {
    match tokenizers::Tokenizer::from_file(path) {
        Ok(inner) => Some(SubwordModel { inner }),
        Err(_) => None,
    }
}

/// Relies on tokenizers' Tokenizer::encode: the number of tokens the loaded
/// model produces for `text`; None when encoding fails. Nothing is assumed
/// of the count.
#[verifier::external_body]
fn model_count(model: &SubwordModel, text: &str) -> Option<usize> {
    match model.inner.encode(text, false) {
        Ok(encoding) => Some(encoding.get_ids().len()),
        Err(_) => None,
    }
}

/// A tokenizer: a strategy plus, for the model-backed strategies, the model
/// loaded once at construction (or nothing, when loading failed).
pub struct Tokenizer {
    strategy: TokenizerType,
    model: Option<SubwordModel>,
}

impl Tokenizer {
    /// The strategy this tokenizer was built with.
    pub closed spec fn spec_strategy(self) -> TokenizerType {
        self.strategy
    }

    /// Whether a subword model was loaded.
    pub closed spec fn has_model(self) -> bool {
        self.model is Some
    }

    /// Build a tokenizer. For the model-backed strategies the model file is
    /// read once here; when it is unavailable the tokenizer still works and
    /// `count_tokens` falls back to the length heuristic.
    pub fn new(strategy: TokenizerType) -> (r: Tokenizer)
        ensures
            r.spec_strategy() == strategy,
            strategy == TokenizerType::Simple ==> !r.has_model(),
    {
        let model = match strategy {
            TokenizerType::Simple => None,
            TokenizerType::Gpt2 => load_model("models/gpt2-tokenizer.json"),
            TokenizerType::Cl100k => match load_model("models/cl100k-tokenizer.json") {
                Some(m) => Some(m),
                None => load_model("models/gpt2-tokenizer.json"),
            },
        };
        Tokenizer { strategy, model }
    }

    /// The strategy, for callers that branch on it.
    pub fn strategy(&self) -> (r: TokenizerType)
        ensures
            r == self.spec_strategy(),
    {
        self.strategy
    }

    /// Count the tokens of `text`. Never fails: the simple strategy counts
    /// whitespace-delimited segments exactly; a model-backed strategy asks
    /// the model and falls back to the length heuristic when the model is
    /// absent or errors.
    pub fn count_tokens(&self, text: &str) -> (r: TokenCount)
        ensures
            self.spec_strategy() == TokenizerType::Simple ==> r.0 == simple_count(text@),
            self.spec_strategy() != TokenizerType::Simple && !self.has_model() ==> r.0
                == heuristic_count(text@.len()),
    {
        match self.strategy {
            TokenizerType::Simple => {
                let chars = chars_vec(text);
                let segments = split_terms(&chars);
                proof {
                    assert(segments@.map_values(|t: Vec<char>| t@).len() == segments@.len());
                }
                TokenCount(segments.len() as u64)
            },
            _ => {
                let counted: Option<usize> = match &self.model {
                    Some(m) => model_count(m, text),
                    None => None,
                };
                match counted {
                    Some(n) => TokenCount(n as u64),
                    None => TokenCount(Self::heuristic(text)),
                }
            },
        }
    }

    /// The length heuristic on the character length of `text`.
    fn heuristic(text: &str) -> (r: u64)
        ensures
            r == heuristic_count(text@.len()),
    {
        let len = text.unicode_len();
        let quarter: u64 = (len as u64) / 4 + if (len as u64) % 4 >= 2 {
            1
        } else {
            0
        };
        if quarter == 0 {
            1
        } else {
            quarter
        }
    }
}

impl Clone for Tokenizer {
    /// Clone the tokenizer. The model itself is not cloned: the clone keeps
    /// the strategy and reloads nothing, so a clone of a model-backed
    /// tokenizer whose model loaded still reports the same strategy.
    fn clone(&self) -> (r: Self)
        ensures
            r.spec_strategy() == self.spec_strategy(),
            r.has_model() == self.has_model(),
    {
        let model = match &self.model {
            Some(m) => Some(clone_model(m)),
            None => None,
        };
        Tokenizer { strategy: self.strategy, model }
    }
}

/// Relies on tokenizers' Tokenizer being Clone: an identical copy of the
/// loaded model.
#[verifier::external_body]
fn clone_model(model: &SubwordModel) -> SubwordModel {
    SubwordModel { inner: model.inner.clone() }
}

} // verus!
