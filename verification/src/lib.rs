use vstd::prelude::*;

pub mod binder;
pub mod environment;
pub mod errors;
pub mod loader;
pub mod model;
pub mod numbers;
pub mod overlay;
pub mod tree;
pub mod yamlext;

pub use binder::bind;
pub use environment::Environment;
pub use errors::ConfigError;
pub use loader::load_settings;
pub use model::{
    BackstageSettings, Cache, Domain, Group, KubeSettings, NatsProxy, Resource, ServerSettings,
    Settings, User,
};
pub use tree::Node;

verus! {

} // verus!
