pub mod agent_run;
pub mod agent_tools;
pub mod charge;
pub mod answers;
pub mod contracts;
pub mod execution_closure;
pub mod export;
pub mod export_shim;
pub mod external_receipt;
pub mod graph;
pub mod graph_state;
pub mod inspection;
pub mod inline_harness;
pub mod input_contract;
pub mod javascript;
pub mod js_engine;
pub mod json;
pub mod json_text;
pub mod output_contract;
pub mod package;
pub mod package_source;
pub mod provenance;
pub mod provider;
pub mod provider_permission;
pub mod refund_proof;
pub mod registry;
pub mod replay;
pub mod sandbox_env;
pub mod runner_selection;
pub mod scheduler;
pub mod skill_authoring;
pub mod skill_command;
pub mod step_outputs;
pub mod string_set;
pub mod text;
pub mod worker_pool;
pub mod worker_protocol;
pub mod worker_supervisor;
