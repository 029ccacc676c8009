use std::cell::RefCell;
use std::sync::Arc;

use ironclaw::provider::{
    CacheRetention, LlmError, LlmProvider, ProviderProtocol, RegistryProviderConfig,
};
use ironclaw::switchable::SwitchableProvider;
use rust_decimal::Decimal;

struct ModelEchoProvider {
    model: String,
}

trait CompletingProvider: LlmProvider {
    fn complete(&self, last_message: &str) -> String;
}

impl CompletingProvider for ModelEchoProvider {
    fn complete(&self, last_message: &str) -> String {
        format!("{}:{}", self.model, last_message)
    }
}

impl LlmProvider for ModelEchoProvider {
    fn model_name(&self) -> &str {
        &self.model
    }

    fn cost_per_token(&self) -> (Decimal, Decimal) {
        (Decimal::new(self.model.len() as i64, 0), Decimal::ZERO)
    }

    fn effective_model_name(&self, requested_model: Option<&str>) -> String {
        match requested_model {
            Some(name) => format!("{}/{}", self.model, name),
            None => self.model.clone(),
        }
    }

    fn active_model_name(&self) -> String {
        self.model.clone()
    }

    fn calculate_cost(&self, input_tokens: u32, output_tokens: u32) -> Decimal {
        Decimal::new(i64::from(input_tokens) * 1000 + i64::from(output_tokens), 0)
    }

    fn cache_write_multiplier(&self) -> Decimal {
        Decimal::new(125, 2)
    }

    fn cache_read_discount(&self) -> Decimal {
        Decimal::new(10, 0)
    }
}

fn test_factory(
    config: &RegistryProviderConfig,
) -> Result<Arc<dyn CompletingProvider>, LlmError> {
    if config.model == "broken-model" {
        return Err(LlmError::RequestFailed {
            provider: config.provider_id.clone(),
            reason: "simulated factory failure".to_string(),
        });
    }
    Ok(Arc::new(ModelEchoProvider {
        model: config.model.clone(),
    }))
}

fn config(model: &str) -> RegistryProviderConfig {
    RegistryProviderConfig {
        protocol: ProviderProtocol::OpenAiCompletions,
        provider_id: "test-provider".to_string(),
        api_key: None,
        base_url: "http://localhost:1234/v1".to_string(),
        model: model.to_string(),
        extra_headers: Vec::new(),
        oauth_token: None,
        cache_retention: CacheRetention::Disabled,
    }
}

#[test]
fn set_model_rebuilds_provider_and_switches_model() {
    let mut switchable = SwitchableProvider::new(config("model-a"), test_factory).unwrap();
    assert_eq!(switchable.active_model_name(), "model-a");

    switchable.set_model("model-b").unwrap();
    assert_eq!(switchable.active_model_name(), "model-b");

    let content = switchable.current_provider().complete("ping");
    assert!(content.starts_with("model-b:"));
}

#[test]
fn set_model_failure_keeps_current_provider() {
    let mut switchable = SwitchableProvider::new(config("model-a"), test_factory).unwrap();
    assert_eq!(switchable.active_model_name(), "model-a");
    let before = switchable.current_provider();

    let err = switchable.set_model("broken-model").unwrap_err();
    match err {
        LlmError::RequestFailed { provider, reason } => {
            assert_eq!(provider, "test-provider");
            assert!(reason.contains("simulated factory failure"));
        }
        _ => panic!("another error"),
    }
    assert_eq!(switchable.active_model_name(), "model-a");
    assert!(Arc::ptr_eq(&before, &switchable.current_provider()));
    assert_eq!(switchable.next_config("other").provider_id, "test-provider");
}

#[test]
fn model_name_reports_initial_configured_model() {
    let switchable = SwitchableProvider::new(config("model-a"), test_factory).unwrap();
    assert_eq!(switchable.model_name(), "model-a");
}

#[test]
fn model_name_stays_after_a_switch() {
    let mut switchable = SwitchableProvider::new(config("model-a"), test_factory).unwrap();
    switchable.set_model("model-b").unwrap();
    assert_eq!(switchable.model_name(), "model-a");
    assert_eq!(switchable.active_model_name(), "model-b");
}

#[test]
fn new_hands_back_the_error_of_the_factory() {
    match SwitchableProvider::new(config("broken-model"), test_factory) {
        Err(LlmError::RequestFailed { reason, .. }) => {
            assert_eq!(reason, "simulated factory failure");
        }
        _ => panic!("built from a broken model"),
    }
}

#[test]
fn last_switch_that_was_built_wins() {
    let mut switchable = SwitchableProvider::new(config("model-a"), test_factory).unwrap();
    switchable.set_model("model-b").unwrap();
    switchable.set_model("model-c").unwrap();
    assert!(switchable.set_model("broken-model").is_err());
    assert_eq!(switchable.active_model_name(), "model-c");
}

#[test]
fn a_switch_keeps_the_rest_of_the_configuration() {
    let mut first = config("model-a");
    first.api_key = Some("key".to_string());
    first.oauth_token = Some("token".to_string());
    first.extra_headers = vec![("X-One".to_string(), "1".to_string())];
    let mut switchable = SwitchableProvider::new(first, test_factory).unwrap();
    switchable.set_model("model-b").unwrap();
    let next = switchable.next_config("model-c");
    assert_eq!(next.model, "model-c");
    assert_eq!(next.api_key.as_deref(), Some("key"));
    assert_eq!(next.oauth_token.as_deref(), Some("token"));
    assert_eq!(next.base_url, "http://localhost:1234/v1");
    assert_eq!(
        next.extra_headers,
        vec![("X-One".to_string(), "1".to_string())]
    );
    assert_eq!(next.cache_retention, CacheRetention::Disabled);
    assert_eq!(next.protocol, ProviderProtocol::OpenAiCompletions);
}

#[test]
fn answers_come_from_the_active_provider() {
    let mut switchable = SwitchableProvider::new(config("model-a"), test_factory).unwrap();
    switchable.set_model("model-bb").unwrap();
    assert_eq!(
        switchable.cost_per_token(),
        (Decimal::new(8, 0), Decimal::ZERO)
    );
    assert_eq!(switchable.effective_model_name(None), "model-bb");
    assert_eq!(switchable.effective_model_name(Some("x")), "model-bb/x");
    assert_eq!(switchable.calculate_cost(2, 3), Decimal::new(2003, 0));
    assert_eq!(switchable.cache_write_multiplier(), Decimal::new(125, 2));
    assert_eq!(switchable.cache_read_discount(), Decimal::new(10, 0));
}

#[test]
fn install_takes_a_built_provider_and_refuses_an_error() {
    let mut switchable = SwitchableProvider::new(config("model-a"), test_factory).unwrap();
    let next = switchable.next_config("model-b");
    let built = test_factory(&next);
    switchable.install(next, built).unwrap();
    assert_eq!(switchable.active_model_name(), "model-b");

    let next = switchable.next_config("broken-model");
    let built = test_factory(&next);
    assert!(switchable.install(next, built).is_err());
    assert_eq!(switchable.active_model_name(), "model-b");
}

#[test]
fn each_switch_asks_the_factory_once() {
    let asked: RefCell<Vec<String>> = RefCell::new(Vec::new());
    let factory = |config: &RegistryProviderConfig| {
        assert_eq!(config.provider_id, "test-provider");
        assert_eq!(config.base_url, "http://localhost:1234/v1");
        asked.borrow_mut().push(config.model.clone());
        test_factory(config)
    };
    let mut switchable = SwitchableProvider::new(config("model-a"), factory).unwrap();
    let first = switchable.current_provider();
    switchable.set_model("model-a").unwrap();
    assert!(!Arc::ptr_eq(&first, &switchable.current_provider()));
    assert!(switchable.set_model("broken-model").is_err());
    switchable.set_model("model-b").unwrap();
    let models = asked.borrow().clone();
    assert_eq!(models, vec!["model-a", "model-a", "broken-model", "model-b"]);
}

#[test]
fn a_provider_of_a_known_type_is_held_too() {
    let build = |config: &RegistryProviderConfig| -> Result<Arc<ModelEchoProvider>, LlmError> {
        Ok(Arc::new(ModelEchoProvider {
            model: config.model.clone(),
        }))
    };
    let mut switchable = SwitchableProvider::new(config("model-a"), build).unwrap();
    switchable.set_model("model-b").unwrap();
    assert_eq!(switchable.current_provider().model, "model-b");
}
