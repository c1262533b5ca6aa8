//! Components: the capability contract, the echo component, and the registry
//! that builds a component from its name.
use vstd::prelude::*;

use crate::bridge::{term_to_value, value_of_term};
use crate::term::Term;
use crate::value::{Value, ValueModel};

verus! {

/// A failure of the bridge or of a component.
#[derive(Debug, PartialEq)]
pub enum LuxError {
    /// No component is registered under the requested name.
    NotImplemented,
    /// A component's own operation failed, with its message.
    Component(String),
    /// The execution context of a handle could not be created.
    ExecutionContext(String),
    /// The handle was already cleaned up.
    Closed,
}

/// The operations every component offers.
pub trait LuxComponent {
    /// One-time setup, before any call of `process`.
    fn initialize(&self) -> Result<(), LuxError>;

    /// Processes one input value.
    fn process(&self, input: Value) -> Result<Value, LuxError>;

    /// Releases what the component holds; called at most once.
    fn cleanup(&self) -> Result<(), LuxError>;
}

/// A component that returns its input unchanged and ignores its configuration.
#[derive(Debug)]
pub struct EchoComponent {
    config: Value,
}

impl EchoComponent {
    pub closed spec fn config_model(&self) -> ValueModel {
        self.config@
    }

    pub fn new(config: Value) -> (r: Self)
        ensures
            r.config_model() == config@,
    {
        Self { config }
    }
}

impl LuxComponent for EchoComponent {
    fn initialize(&self) -> (r: Result<(), LuxError>)
        ensures
            r == Ok::<(), LuxError>(()),
    {
        Ok(())
    }

    fn process(&self, input: Value) -> (r: Result<Value, LuxError>)
        ensures
            r matches Ok(out) && out@ == input@,
    {
        Ok(input)
    }

    fn cleanup(&self) -> (r: Result<(), LuxError>)
        ensures
            r == Ok::<(), LuxError>(()),
    {
        Ok(())
    }
}


/// The components that the registry can build.
#[derive(Debug)]
pub enum Component {
    Echo(EchoComponent),
}

/// The model of a result that carries a value.
pub open spec fn value_result_model(r: Result<Value, LuxError>) -> Result<ValueModel, LuxError> {
    match r {
        Ok(v) => Ok(v@),
        Err(e) => Err(e),
    }
}

impl Component {
    /// What `initialize` returns.
    pub open spec fn initialize_spec(&self) -> Result<(), LuxError> {
        match self {
            Component::Echo(_) => Ok(()),
        }
    }

    /// What `process` returns for an input.
    pub open spec fn process_spec(&self, input: ValueModel) -> Result<ValueModel, LuxError> {
        match self {
            Component::Echo(_) => Ok(input),
        }
    }

    /// What `cleanup` returns.
    pub open spec fn cleanup_spec(&self) -> Result<(), LuxError> {
        match self {
            Component::Echo(_) => Ok(()),
        }
    }
}

impl LuxComponent for Component {
    fn initialize(&self) -> (r: Result<(), LuxError>)
        ensures
            r == self.initialize_spec(),
    {
        match self {
            Component::Echo(c) => c.initialize(),
        }
    }

    fn process(&self, input: Value) -> (r: Result<Value, LuxError>)
        ensures
            value_result_model(r) == self.process_spec(input@),
    {
        match self {
            Component::Echo(c) => c.process(input),
        }
    }

    fn cleanup(&self) -> (r: Result<(), LuxError>)
        ensures
            r == self.cleanup_spec(),
    {
        match self {
            Component::Echo(c) => c.cleanup(),
        }
    }
}

/// What the host hands over to build a component: its name and its
/// configuration term.
#[derive(Debug)]
pub struct ComponentConfig {
    pub name: String,
    pub config: Term,
}

pub open spec fn echo_name() -> Seq<char> {
    seq!['e', 'c', 'h', 'o']
}

/// Builds the component registered under `config.name`, handing it the
/// converted configuration.
pub fn create_component(config: &ComponentConfig) -> (r: Result<Component, LuxError>)
    ensures
        config.name@ == echo_name() <==> r is Ok,
        config.name@ != echo_name() ==> r == Err::<Component, LuxError>(LuxError::NotImplemented),
        r matches Ok(c) ==> c matches Component::Echo(e) && e.config_model() == value_of_term(
            config.config@,
        ),
{
    let config_value = term_to_value(&config.config);
    let echo = "echo".to_owned();
    proof {
        reveal_strlit("echo");
        assert("echo"@ =~= echo_name());
    }
    if config.name == echo {
        Ok(Component::Echo(EchoComponent::new(config_value)))
    } else {
        Err(LuxError::NotImplemented)
    }
}

} // verus!
