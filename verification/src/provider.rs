//! Language-model providers and the configuration that they are built from.
use vstd::prelude::*;

use crate::text::optional_text;

verus! {

/// The decimal numbers in which providers state their prices.
#[verifier::external_type_specification]
#[verifier::external_body]
pub struct ExDecimal(rust_decimal::Decimal);

/// The wire protocol that a provider speaks.
#[derive(Clone, Copy, Debug, PartialEq, Eq, Structural)]
#[non_exhaustive]
pub enum ProviderProtocol {
    OpenAiCompletions,
}

/// How long a provider keeps a prompt in its cache.
#[derive(Clone, Copy, Debug, PartialEq, Eq, Structural)]
#[non_exhaustive]
pub enum CacheRetention {
    /// Not at all.
    Disabled,
}

/// Why a provider could not be built or did not answer.
#[derive(Debug, PartialEq, Eq)]
#[non_exhaustive]
pub enum LlmError {
    RequestFailed { provider: String, reason: String },
}

/// What a provider of the registry is built from.
#[derive(Debug)]
pub struct RegistryProviderConfig {
    pub protocol: ProviderProtocol,
    pub provider_id: String,
    pub api_key: Option<String>,
    pub base_url: String,
    pub model: String,
    pub extra_headers: Vec<(String, String)>,
    pub oauth_token: Option<String>,
    pub cache_retention: CacheRetention,
}

/// The values that a configuration holds.
pub struct ConfigView {
    pub protocol: ProviderProtocol,
    pub provider_id: Seq<char>,
    pub api_key: Option<Seq<char>>,
    pub base_url: Seq<char>,
    pub model: Seq<char>,
    pub extra_headers: Seq<(Seq<char>, Seq<char>)>,
    pub oauth_token: Option<Seq<char>>,
    pub cache_retention: CacheRetention,
}

impl ConfigView {
    /// The same configuration for another model.
    pub open spec fn with_model(self, model: Seq<char>) -> ConfigView {
        ConfigView { model, ..self }
    }
}

impl View for RegistryProviderConfig {
    type V = ConfigView;

    open spec fn view(&self) -> ConfigView {
        ConfigView {
            protocol: self.protocol,
            provider_id: self.provider_id@,
            api_key: match self.api_key {
                Some(key) => Some(key@),
                None => None,
            },
            base_url: self.base_url@,
            model: self.model@,
            extra_headers: self.extra_headers@.map_values(
                |header: (String, String)| (header.0@, header.1@),
            ),
            oauth_token: match self.oauth_token {
                Some(token) => Some(token@),
                None => None,
            },
            cache_retention: self.cache_retention,
        }
    }
}

/// The two configurations hold the same values, but for the model.
pub open spec fn same_but_for_the_model(
    a: RegistryProviderConfig,
    b: RegistryProviderConfig,
) -> bool {
    &&& a.protocol == b.protocol
    &&& a.provider_id@ == b.provider_id@
    &&& optional_text(a.api_key) == optional_text(b.api_key)
    &&& a.base_url@ == b.base_url@
    &&& a.extra_headers@.len() == b.extra_headers@.len()
    &&& forall|i: int|
        0 <= i < a.extra_headers@.len() ==> (#[trigger] a.extra_headers@[i]).0@
            == b.extra_headers@[i].0@ && a.extra_headers@[i].1@ == b.extra_headers@[i].1@
    &&& optional_text(a.oauth_token) == optional_text(b.oauth_token)
    &&& a.cache_retention == b.cache_retention
}

fn copy_headers(headers: &Vec<(String, String)>) -> (r: Vec<(String, String)>)
    ensures
        r@ == headers@,
{
    let mut out: Vec<(String, String)> = Vec::new();
    let mut i: usize = 0;
    while i < headers.len()
        invariant
            i <= headers@.len(),
            out@ == headers@.take(i as int),
        decreases headers@.len() - i,
    {
        out.push((headers[i].0.clone(), headers[i].1.clone()));
        i += 1;
        assert(headers@.take(i as int) =~= headers@.take(i - 1).push(headers@[i - 1]));
    }
    assert(headers@.take(i as int) =~= headers@);
    out
}

impl RegistryProviderConfig {
    /// The same configuration for another model.
    pub fn with_model(&self, model: &str) -> (r: RegistryProviderConfig)
        ensures
            r@ == self@.with_model(model@),
            r.model@ == model@,
            same_but_for_the_model(*self, r),
    {
        RegistryProviderConfig {
            protocol: self.protocol,
            provider_id: self.provider_id.clone(),
            api_key: self.api_key.clone(),
            base_url: self.base_url.clone(),
            model: model.to_owned(),
            extra_headers: copy_headers(&self.extra_headers),
            oauth_token: self.oauth_token.clone(),
            cache_retention: self.cache_retention,
        }
    }
}

/// What a provider answers at once, without a request to its service.
pub trait LlmProvider {
    /// The model that the provider was configured with.
    fn model_name(&self) -> &str;

    /// The price of one token: of the input, and of the output.
    fn cost_per_token(&self) -> (rust_decimal::Decimal, rust_decimal::Decimal);

    /// The model that answers a request for `requested_model`.
    fn effective_model_name(&self, requested_model: Option<&str>) -> String;

    /// The model that answers now.
    fn active_model_name(&self) -> String;

    /// The price of a request.
    fn calculate_cost(&self, input_tokens: u32, output_tokens: u32) -> rust_decimal::Decimal;

    /// The factor on the price of tokens that are written to the cache.
    fn cache_write_multiplier(&self) -> rust_decimal::Decimal;

    /// The discount on the price of tokens that are read from the cache.
    fn cache_read_discount(&self) -> rust_decimal::Decimal;
}

// ---------------------------------------------------------------------------
// Laws
// ---------------------------------------------------------------------------

/// A configuration for another model has that model, and every other value of the
/// configuration that it was made from.
pub proof fn law_another_model_changes_the_model_alone(config: ConfigView, model: Seq<char>)
    ensures
        config.with_model(model).model == model,
        config.with_model(model).protocol == config.protocol,
        config.with_model(model).provider_id == config.provider_id,
        config.with_model(model).api_key == config.api_key,
        config.with_model(model).base_url == config.base_url,
        config.with_model(model).extra_headers == config.extra_headers,
        config.with_model(model).oauth_token == config.oauth_token,
        config.with_model(model).cache_retention == config.cache_retention,
        config.with_model(config.model) == config,
{
}

/// Different models make different configurations.
pub proof fn law_models_tell_configurations_apart(
    config: ConfigView,
    first: Seq<char>,
    second: Seq<char>,
)
    requires
        config.with_model(first) == config.with_model(second),
    ensures
        first == second,
{
    assert(config.with_model(first).model == first);
    assert(config.with_model(second).model == second);
}

/// Nothing that a configuration holds is hidden: two that show the same values hold
/// the same model, and are otherwise the same too.
pub proof fn law_configurations_show_what_they_hold(
    a: RegistryProviderConfig,
    b: RegistryProviderConfig,
    model: Seq<char>,
)
    ensures
        a@ == b@ ==> a.model@ == b.model@ && same_but_for_the_model(a, b),
        b@ == a@.with_model(model) ==> b.model@ == model && same_but_for_the_model(a, b),
        same_but_for_the_model(a, b) && a.model@ == b.model@ ==> a@ == b@,
{
    lemma_headers(a, b);
}

proof fn lemma_headers(a: RegistryProviderConfig, b: RegistryProviderConfig)
    ensures
        a@.extra_headers == b@.extra_headers <==> {
            &&& a.extra_headers@.len() == b.extra_headers@.len()
            &&& forall|i: int|
                0 <= i < a.extra_headers@.len() ==> (#[trigger] a.extra_headers@[i]).0@
                    == b.extra_headers@[i].0@ && a.extra_headers@[i].1@ == b.extra_headers@[i].1@
        },
{
    let x = a@.extra_headers;
    let y = b@.extra_headers;
    assert(x.len() == a.extra_headers@.len());
    assert(y.len() == b.extra_headers@.len());
    if x == y {
        assert forall|i: int| 0 <= i < a.extra_headers@.len() implies (
        #[trigger] a.extra_headers@[i]).0@ == b.extra_headers@[i].0@ && a.extra_headers@[i].1@
            == b.extra_headers@[i].1@ by {
            assert(x[i] == y[i]);
        }
    }
    if a.extra_headers@.len() == b.extra_headers@.len() && (forall|i: int|
        0 <= i < a.extra_headers@.len() ==> (#[trigger] a.extra_headers@[i]).0@
            == b.extra_headers@[i].0@ && a.extra_headers@[i].1@ == b.extra_headers@[i].1@) {
        assert(x =~= y);
    }
}

} // verus!
