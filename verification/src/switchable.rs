//! A provider whose model can be switched while it runs.
//!
//! Some providers fix their model when they are built. `SwitchableProvider`
//! keeps the configuration and the factory, builds a new provider for each
//! switch, and puts it in the old one's place only when it was built.
use std::sync::Arc;
use vstd::prelude::*;

use crate::provider::{
    law_configurations_show_what_they_hold, same_but_for_the_model, ConfigView, LlmError,
    LlmProvider, RegistryProviderConfig,
};

verus! {

/// A provider, and what it takes to build it again for another model.
pub struct SwitchableProvider<P: ?Sized, F> {
    provider: Arc<P>,
    config: RegistryProviderConfig,
    factory: F,
    configured_model_name: String,
}

impl<P, F> SwitchableProvider<P, F> where
    P: LlmProvider + ?Sized,
    F: Fn(&RegistryProviderConfig) -> Result<Arc<P>, LlmError>,
 {
    /// The provider that answers now.
    pub closed spec fn provider(self) -> Arc<P> {
        self.provider
    }

    /// The configuration of the provider that answers now.
    pub closed spec fn config(self) -> RegistryProviderConfig {
        self.config
    }

    /// What builds a provider from a configuration.
    pub closed spec fn factory(self) -> F {
        self.factory
    }

    /// The model of the first configuration.
    pub closed spec fn configured_model(self) -> Seq<char> {
        self.configured_model_name@
    }

    /// The factory takes every configuration, and the provider that answers now
    /// is one that it built from the configuration that is kept.
    pub open spec fn wf(self) -> bool {
        &&& forall|c: &RegistryProviderConfig| call_requires(self.factory(), (c,))
        &&& call_ensures(self.factory(), (&self.config(),), Ok(self.provider()))
    }

    /// Builds the provider for `config`, and keeps what it takes to switch.
    pub fn new(config: RegistryProviderConfig, factory: F) -> (r: Result<
        SwitchableProvider<P, F>,
        LlmError,
    >)
        requires
            forall|c: &RegistryProviderConfig| call_requires(factory, (c,)),
        ensures
            match r {
                Ok(s) => {
                    &&& s.wf()
                    &&& s.factory() == factory
                    &&& s.config() == config
                    &&& s.configured_model() == config.model@
                    &&& call_ensures(factory, (&config,), Ok(s.provider()))
                },
                Err(e) => call_ensures(factory, (&config,), Err(e)),
            },
    {
        let built = factory(&config);
        Self::from_built(config, factory, built)
    }

    /// What `new` makes of the factory's answer for `config`.
    pub fn from_built(
        config: RegistryProviderConfig,
        factory: F,
        built: Result<Arc<P>, LlmError>,
    ) -> (r: Result<SwitchableProvider<P, F>, LlmError>)
        ensures
            match r {
                Ok(s) => {
                    &&& built == Ok::<Arc<P>, LlmError>(s.provider())
                    &&& s.factory() == factory
                    &&& s.config() == config
                    &&& s.configured_model() == config.model@
                },
                Err(e) => built == Err::<Arc<P>, LlmError>(e),
            },
            r is Ok <==> built is Ok,
    {
        match built {
            Ok(provider) => Ok(
                SwitchableProvider {
                    provider,
                    configured_model_name: config.model.clone(),
                    config,
                    factory,
                },
            ),
            Err(e) => Err(e),
        }
    }

    /// The provider that answers now, shared with the caller.
    pub fn current_provider(&self) -> (r: Arc<P>)
        ensures
            r == self.provider(),
    {
        Arc::clone(&self.provider)
    }

    /// The configuration for a switch to `model`: the one that is kept, but for
    /// the model.
    pub fn next_config(&self, model: &str) -> (r: RegistryProviderConfig)
        ensures
            r@ == self.config()@.with_model(model@),
            r.model@ == model@,
            same_but_for_the_model(self.config(), r),
    {
        self.config.with_model(model)
    }

    /// Takes the factory's answer for `config`. A provider is put in place of the
    /// old one, together with its configuration; an error is handed back, and
    /// nothing changes.
    pub fn install(
        &mut self,
        config: RegistryProviderConfig,
        built: Result<Arc<P>, LlmError>,
    ) -> (r: Result<(), LlmError>)
        ensures
            match built {
                Ok(provider) => {
                    &&& r == Ok::<(), LlmError>(())
                    &&& final(self).provider() == provider
                    &&& final(self).config() == config
                },
                Err(e) => {
                    &&& r == Err::<(), LlmError>(e)
                    &&& final(self).provider() == old(self).provider()
                    &&& final(self).config() == old(self).config()
                },
            },
            final(self).factory() == old(self).factory(),
            final(self).configured_model() == old(self).configured_model(),
    {
        match built {
            Ok(provider) => {
                self.provider = provider;
                self.config = config;
                Ok(())
            },
            Err(e) => Err(e),
        }
    }

    /// Switches to `model`. The new provider is built first, so that a failure
    /// leaves the one that answers now in place.
    ///
    /// The factory is called once, also where `model` is that of the provider
    /// that answers now. How often it is called is left unsaid by the contract,
    /// which says only that what comes of the switch is an answer of the factory.
    pub fn set_model(&mut self, model: &str) -> (r: Result<(), LlmError>)
        requires
            old(self).wf(),
        ensures
            switched(*old(self), model@, r, *final(self)),
            r is Ok ==> final(self).config().model@ == model@,
            r is Ok ==> same_but_for_the_model(old(self).config(), final(self).config()),
            r is Err ==> final(self).config() == old(self).config(),
            r is Err ==> final(self).provider() == old(self).provider(),
    {
        let next = self.next_config(model);
        let built = (self.factory)(&next);
        let r = self.install(next, built);
        assert(r is Err ==> call_ensures(old(self).factory(), (&next,), Err(r->Err_0)));
        r
    }
}

/// What a switch to `model` makes of `before`, where it comes to `r`. On success
/// there is a provider that the factory builds from the configuration that was
/// kept, but for the model, and that configuration beside it. On failure nothing
/// has changed, and the error is one that the factory gives for that configuration.
pub open spec fn switched<P, F>(
    before: SwitchableProvider<P, F>,
    model: Seq<char>,
    r: Result<(), LlmError>,
    after: SwitchableProvider<P, F>,
) -> bool where
    P: LlmProvider + ?Sized,
    F: Fn(&RegistryProviderConfig) -> Result<Arc<P>, LlmError>,
 {
    &&& after.wf()
    &&& after.factory() == before.factory()
    &&& after.configured_model() == before.configured_model()
    &&& match r {
        Ok(_) => {
            &&& after.config()@ == before.config()@.with_model(model)
            &&& call_ensures(before.factory(), (&after.config(),), Ok(after.provider()))
        },
        Err(e) => {
            &&& after.provider() == before.provider()
            &&& after.config() == before.config()
            &&& exists|c: RegistryProviderConfig|
                c@ == before.config()@.with_model(model) && #[trigger] call_ensures(
                    before.factory(),
                    (&c,),
                    Err(e),
                )
        },
    }
}

impl<P, F> LlmProvider for SwitchableProvider<P, F> where
    P: LlmProvider + ?Sized,
    F: Fn(&RegistryProviderConfig) -> Result<Arc<P>, LlmError>,
 {
    /// The model of the first configuration, whatever was switched to since.
    fn model_name(&self) -> (r: &str)
        ensures
            r@ == self.configured_model(),
    {
        self.configured_model_name.as_str()
    }

    fn cost_per_token(&self) -> (r: (rust_decimal::Decimal, rust_decimal::Decimal))
        ensures
            call_ensures(P::cost_per_token, (&*self.provider(),), r),
    {
        self.provider.cost_per_token()
    }

    fn effective_model_name(&self, requested_model: Option<&str>) -> (r: String)
        ensures
            call_ensures(P::effective_model_name, (&*self.provider(), requested_model), r),
    {
        self.provider.effective_model_name(requested_model)
    }

    fn active_model_name(&self) -> (r: String)
        ensures
            call_ensures(P::active_model_name, (&*self.provider(),), r),
    {
        self.provider.active_model_name()
    }

    fn calculate_cost(&self, input_tokens: u32, output_tokens: u32) -> (r: rust_decimal::Decimal)
        ensures
            call_ensures(P::calculate_cost, (&*self.provider(), input_tokens, output_tokens), r),
    {
        self.provider.calculate_cost(input_tokens, output_tokens)
    }

    fn cache_write_multiplier(&self) -> (r: rust_decimal::Decimal)
        ensures
            call_ensures(P::cache_write_multiplier, (&*self.provider(),), r),
    {
        self.provider.cache_write_multiplier()
    }

    fn cache_read_discount(&self) -> (r: rust_decimal::Decimal)
        ensures
            call_ensures(P::cache_read_discount, (&*self.provider(),), r),
    {
        self.provider.cache_read_discount()
    }
}

// ---------------------------------------------------------------------------
// Laws
// ---------------------------------------------------------------------------

/// Of two switches in a row, only the last one shows in the configuration.
pub proof fn law_last_switch_wins(config: ConfigView, first: Seq<char>, second: Seq<char>)
    ensures
        config.with_model(first).with_model(second) == config.with_model(second),
{
}

/// One attempt to switch: the model that was asked for, and whether a provider
/// was built for it.
pub struct Attempt {
    pub model: Seq<char>,
    pub built: bool,
}

/// The configuration after the attempts, each changing it as `set_model` does.
pub open spec fn config_after(config: ConfigView, attempts: Seq<Attempt>) -> ConfigView
    decreases attempts.len(),
{
    if attempts.len() == 0 {
        config
    } else {
        let before = config_after(config, attempts.drop_last());
        if attempts.last().built {
            before.with_model(attempts.last().model)
        } else {
            before
        }
    }
}

/// The model after the attempts: that of the last one for which a provider was
/// built, or the configured one.
pub open spec fn model_after(configured: Seq<char>, attempts: Seq<Attempt>) -> Seq<char>
    decreases attempts.len(),
{
    if attempts.len() == 0 {
        configured
    } else if attempts.last().built {
        attempts.last().model
    } else {
        model_after(configured, attempts.drop_last())
    }
}

/// However often the model is switched, the configuration differs from the
/// first one in its model alone, and that is the last model that was built.
pub proof fn law_switches_change_only_the_model(config: ConfigView, attempts: Seq<Attempt>)
    ensures
        config_after(config, attempts) == config.with_model(model_after(config.model, attempts)),
    decreases attempts.len(),
{
    if attempts.len() > 0 {
        law_switches_change_only_the_model(config, attempts.drop_last());
    }
}

/// A switch that succeeds leaves a configuration with the model that was asked for,
/// every other value of the old one, and a provider that the factory builds from
/// it. One that fails leaves both as they were. Neither changes the factory or the
/// name of the configured model.
pub proof fn law_switch_takes_the_model_that_was_asked_for<P, F>(
    before: SwitchableProvider<P, F>,
    model: Seq<char>,
    r: Result<(), LlmError>,
    after: SwitchableProvider<P, F>,
) where
    P: LlmProvider + ?Sized,
    F: Fn(&RegistryProviderConfig) -> Result<Arc<P>, LlmError>,

    requires
        switched(before, model, r, after),
    ensures
        r is Ok ==> after.config().model@ == model,
        r is Ok ==> same_but_for_the_model(before.config(), after.config()),
        r is Ok ==> call_ensures(before.factory(), (&after.config(),), Ok(after.provider())),
        r is Err ==> after.config() == before.config(),
        r is Err ==> after.provider() == before.provider(),
        r matches Err(e) ==> exists|c: RegistryProviderConfig|
            c.model@ == model && same_but_for_the_model(before.config(), c)
                && #[trigger] call_ensures(before.factory(), (&c,), Err(e)),
        after.factory() == before.factory(),
        after.configured_model() == before.configured_model(),
{
    if let Err(e) = r {
        let c = choose|c: RegistryProviderConfig|
            c@ == before.config()@.with_model(model) && #[trigger] call_ensures(
                before.factory(),
                (&c,),
                Err(e),
            );
        law_configurations_show_what_they_hold(before.config(), c, model);
        assert(call_ensures(before.factory(), (&c,), Err(e)));
    } else {
        law_configurations_show_what_they_hold(before.config(), after.config(), model);
    }
}

/// The attempts to switch to the models, with what they came to.
pub open spec fn attempts_of(models: Seq<Seq<char>>, results: Seq<Result<(), LlmError>>) -> Seq<
    Attempt,
> {
    Seq::new(models.len(), |i: int| Attempt { model: models[i], built: results[i] is Ok })
}

/// `states` are those of a provider before, between and after the switches.
pub open spec fn run_of_switches<P, F>(
    states: Seq<SwitchableProvider<P, F>>,
    models: Seq<Seq<char>>,
    results: Seq<Result<(), LlmError>>,
) -> bool where
    P: LlmProvider + ?Sized,
    F: Fn(&RegistryProviderConfig) -> Result<Arc<P>, LlmError>,
 {
    &&& states.len() == models.len() + 1
    &&& results.len() == models.len()
    &&& states[0].wf()
    &&& forall|i: int|
        0 <= i < models.len() ==> switched(
            states[i],
            #[trigger] models[i],
            results[i],
            states[i + 1],
        )
}

/// After any number of switches the provider is one that the factory built from
/// the first configuration with the last model that was built; the factory and
/// the configured model are the first ones.
pub proof fn law_switches_start_from_the_first_config<P, F>(
    states: Seq<SwitchableProvider<P, F>>,
    models: Seq<Seq<char>>,
    results: Seq<Result<(), LlmError>>,
) where
    P: LlmProvider + ?Sized,
    F: Fn(&RegistryProviderConfig) -> Result<Arc<P>, LlmError>,

    requires
        run_of_switches(states, models, results),
    ensures
        ({
            let first = states[0];
            let last = states.last();
            let model = model_after(first.config()@.model, attempts_of(models, results));
            &&& last.wf()
            &&& last.factory() == first.factory()
            &&& last.configured_model() == first.configured_model()
            &&& last.config()@ == first.config()@.with_model(model)
        }),
    decreases models.len(),
{
    let attempts = attempts_of(models, results);
    let first = states[0];
    if models.len() == 0 {
        assert(states.last() == first);
        assert(attempts =~= Seq::empty());
    } else {
        let n = models.len() - 1;
        assert(switched(states[n], models[n], results[n], states[n + 1]));
        let earlier = states.drop_last();
        assert forall|i: int| 0 <= i < n implies switched(
            earlier[i],
            #[trigger] models.drop_last()[i],
            results.drop_last()[i],
            earlier[i + 1],
        ) by {
            assert(switched(states[i], models[i], results[i], states[i + 1]));
        }
        law_switches_start_from_the_first_config(
            earlier,
            models.drop_last(),
            results.drop_last(),
        );
        assert(attempts_of(models.drop_last(), results.drop_last()) =~= attempts.drop_last());
        assert(earlier.last() == states[n]);
    }
}

/// Whatever was switched to before, a switch comes to an answer of the factory to
/// the first configuration with the model that is asked for: a provider that it
/// builds for it, or an error that it gives for it.
pub proof fn law_each_switch_rebuilds_from_the_first_config<P, F>(
    states: Seq<SwitchableProvider<P, F>>,
    models: Seq<Seq<char>>,
    results: Seq<Result<(), LlmError>>,
    model: Seq<char>,
    r: Result<(), LlmError>,
    after: SwitchableProvider<P, F>,
) where
    P: LlmProvider + ?Sized,
    F: Fn(&RegistryProviderConfig) -> Result<Arc<P>, LlmError>,

    requires
        run_of_switches(states, models, results),
        switched(states.last(), model, r, after),
    ensures
        match r {
            Ok(_) => {
                &&& after.config()@ == states[0].config()@.with_model(model)
                &&& call_ensures(states[0].factory(), (&after.config(),), Ok(after.provider()))
            },
            Err(e) => {
                &&& after.provider() == states.last().provider()
                &&& after.config() == states.last().config()
                &&& exists|c: RegistryProviderConfig|
                    c@ == states[0].config()@.with_model(model) && #[trigger] call_ensures(
                        states[0].factory(),
                        (&c,),
                        Err(e),
                    )
            },
        },
{
    law_switches_start_from_the_first_config(states, models, results);
}

/// Where the factory builds providers that report the model of their
/// configuration, the active model is that of the configuration that is kept.
pub proof fn law_active_model_follows_config<P, F>(s: SwitchableProvider<P, F>, name: String) where
    P: LlmProvider + ?Sized,
    F: Fn(&RegistryProviderConfig) -> Result<Arc<P>, LlmError>,

    requires
        s.wf(),
        forall|c: RegistryProviderConfig, p: Arc<P>, n: String| #[trigger]
            call_ensures(s.factory(), (&c,), Ok(p)) && #[trigger] call_ensures(
                P::active_model_name,
                (&*p,),
                n,
            ) ==> n@ == c.model@,
        call_ensures(P::active_model_name, (&*s.provider(),), name),
    ensures
        name@ == s.config()@.model,
{
    assert(call_ensures(s.factory(), (&s.config(),), Ok(s.provider())));
}

} // verus!
