//! Embedding layer around a JavaScript engine: host-operation registries,
//! extension bundles with dependency-ordered installation, a context
//! lifecycle, and a typed marshaling boundary for values that cross
//! between host and script.

mod bundle;
mod error;
mod marshal;
mod ops;
mod runtime;
mod value;

pub use bundle::ExtensionBundle;
pub use error::BundleError;
pub use error::EngineError;
pub use error::InitError;
pub use error::MarshalError;
pub use error::MarshalSite;
pub use error::SourcePosition;
pub use marshal::arguments_conform;
pub use marshal::marshal_arguments;
pub use marshal::marshal_return;
pub use ops::HostOperation;
pub use ops::OperationRegistry;
pub use ops::all_names_nonempty;
pub use ops::has_duplicate_name;
pub use ops::lemma_duplicate_detection_order_independent;
pub use ops::operation_names;
pub use runtime::RunOutcome;
pub use runtime::SapphillonRuntime;
pub use runtime::ScriptExecutionRequest;
pub use runtime::all_dependencies_present;
pub use runtime::context_has_operation;
pub use runtime::dep_before;
pub use runtime::dependency_ordered;
pub use runtime::depends_on;
pub use runtime::has_dependency_cycle;
pub use runtime::has_duplicate_bundle_name;
pub use runtime::is_cyclic_set;
pub use runtime::lemma_installation_keeps_names_distinct;
pub use runtime::name_present;
pub use runtime::reordering_of;
pub use runtime::run_script;
pub use value::Shape;
pub use value::Value;
pub use value::all_integers;
pub use value::conforms;
pub use value::integer_values;
