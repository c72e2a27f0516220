pub mod arg_repair;
pub mod context;
pub mod loop_guard;
pub mod model_router;
pub mod prefix_cache;
pub mod prompts;
pub mod tools;
