pub mod argmax;
pub mod batching;
pub mod column;
pub mod config;
pub mod dispatch;
pub mod text;

pub use argmax::argmax;
pub use batching::{
    call_model, create_batched_tensor, flatten_batched_tensor, Batches, BridgeError,
};
pub use column::ListColumn;
pub use config::{ConfigEntry, ConfigError, LightfusionConfig};
pub use dispatch::{
    find_item_type, model_file, select_kernel, CreateError, DataKind, FunctionBody, FunctionPlan,
    ItemType, Kernel, LightfusionFunctionFactory,
};
