//! The handle that owns one component instance and serializes its operations.
use vstd::prelude::*;

use crate::bridge::{
    doubles_stay_doubles, keys_unique, lemma_round_trip, term_of_value, term_to_value, value_of_term, value_to_term,
};
use crate::component::{
    create_component, echo_name, Component, ComponentConfig, LuxComponent, LuxError,
};
use crate::term::{Term, TermModel};

verus! {

/// A live component behind an opaque handle. It is ready after a successful
/// `initialize` and closed after `cleanup`; a closed handle rejects every
/// further operation. Taking it by `&mut` gives each operation exclusive
/// access to the component.
#[derive(Debug)]
pub struct ComponentResource {
    component: Component,
    closed: bool,
}

impl ComponentResource {
    pub closed spec fn component_spec(&self) -> Component {
        self.component
    }

    pub closed spec fn is_closed(&self) -> bool {
        self.closed
    }
}

/// The model of a result that carries a term.
pub open spec fn term_result_model(r: Result<Term, LuxError>) -> Result<TermModel, LuxError> {
    match r {
        Ok(t) => Ok(t@),
        Err(e) => Err(e),
    }
}

/// A ready handle built from the component name `name` and the configuration
/// term `config`.
pub open spec fn created_from(name: Seq<char>, config: TermModel, h: ComponentResource) -> bool {
    &&& name == echo_name()
    &&& !h.is_closed()
    &&& h.component_spec() matches Component::Echo(e) && e.config_model() == value_of_term(config)
}

/// What invoking a handle on an input term returns.
pub open spec fn invoke_spec(h: ComponentResource, input: TermModel) -> Result<TermModel, LuxError> {
    if h.is_closed() {
        Err(LuxError::Closed)
    } else {
        match h.component_spec().process_spec(value_of_term(input)) {
            Ok(v) => Ok(term_of_value(v)),
            Err(e) => Err(e),
        }
    }
}

/// The handle `after` is `before` once cleaned up.
pub open spec fn cleaned_up(before: ComponentResource, after: ComponentResource) -> bool {
    &&& after.is_closed()
    &&& after.component_spec() == before.component_spec()
}

/// What cleaning up a handle returns.
pub open spec fn cleanup_spec(h: ComponentResource) -> Result<(), LuxError> {
    if h.is_closed() {
        Err(LuxError::Closed)
    } else {
        h.component_spec().cleanup_spec()
    }
}

/// Builds the component named in `config` and runs its setup. Fails with
/// `NotImplemented` for a name that no component is registered under, and
/// with the component's error when its setup fails; no handle is made then.
pub fn initialize(config: ComponentConfig) -> (r: Result<ComponentResource, LuxError>)
    ensures
        config.name@ == echo_name() <==> r is Ok,
        config.name@ != echo_name() ==> r == Err::<ComponentResource, LuxError>(
            LuxError::NotImplemented,
        ),
        r matches Ok(h) ==> created_from(config.name@, config.config@, h),
{
    let component = match create_component(&config) {
        Ok(c) => c,
        Err(e) => {
            return Err(e);
        },
    };
    match component.initialize() {
        Ok(()) => Ok(ComponentResource { component, closed: false }),
        Err(e) => Err(e),
    }
}

/// Converts `input` to a value, runs the component's `process` on it and
/// converts the result back. The handle is left as it was, also on failure.
pub fn process(resource: &mut ComponentResource, input: &Term) -> (r: Result<Term, LuxError>)
    ensures
        *final(resource) == *old(resource),
        term_result_model(r) == invoke_spec(*old(resource), input@),
{
    if resource.closed {
        return Err(LuxError::Closed);
    }
    let value = term_to_value(input);
    match resource.component.process(value) {
        Ok(out) => Ok(value_to_term(&out)),
        Err(e) => Err(e),
    }
}

/// Runs the component's `cleanup`. The handle is closed afterwards, whether
/// the cleanup succeeded or not; cleaning up a closed handle is rejected.
pub fn cleanup(resource: &mut ComponentResource) -> (r: Result<(), LuxError>)
    ensures
        cleaned_up(*old(resource), *final(resource)),
        r == cleanup_spec(*old(resource)),
{
    if resource.closed {
        return Err(LuxError::Closed);
    }
    let r = resource.component.cleanup();
    resource.closed = true;
    r
}

/// A handle built for the echo component gives back every value sent through
/// it: the term it returns converts to the value that was sent. A double that
/// is a whole number in the range of `i64` comes back as that integer.
pub proof fn lemma_echo_identity(
    name: Seq<char>,
    config: TermModel,
    h: ComponentResource,
    v: crate::value::ValueModel,
)
    requires
        created_from(name, config, h),
        doubles_stay_doubles(v),
        keys_unique(v),
    ensures
        invoke_spec(h, term_of_value(v)) matches Ok(t) && value_of_term(t) == v,
{
    lemma_round_trip(v);
}

/// Once a handle is cleaned up, every later invocation is rejected.
pub proof fn lemma_closed_rejects(before: ComponentResource, after: ComponentResource, input: TermModel)
    requires
        cleaned_up(before, after),
    ensures
        invoke_spec(after, input) == Err::<TermModel, LuxError>(LuxError::Closed),
{
}

} // verus!
