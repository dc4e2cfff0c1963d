//! Transport connection subsystem for a desktop MCP gateway.
//!
//! The library locates executables for user-configured MCP servers, resolves
//! a trustworthy search path for GUI-launched processes, classifies child
//! process diagnostic output, and drives the connection state machine that
//! turns a spawned child process into a live protocol session.

mod diagnostics;
mod env_map;
mod shell_env;
mod stdio;
mod storage;
mod strutil;

pub use diagnostics::{LogLevel, LogSource, ServerLog, classify_stderr_line, process_stderr_line};
pub use env_map::EnvMap;
pub use shell_env::{merge_paths, split_path, join_path};
pub use stdio::{LocateError, command_hint, resolve_command, locate_outcome, inject_shell_path, with_exe_suffix};
pub use stdio::{TransportType, TransportConnectResult, StdioTransport, ConnectState, ConnectEvent, ConnectAction};
pub use storage::{FileKeyProvider, FileJwtSecretProvider, KeyProviderChoice, JwtSecretProviderChoice, create_key_provider, create_jwt_secret_provider, default_database_path, database_path_in, check_key_material, KEY_SIZE, JWT_SECRET_SIZE};
pub use shell_env::{ShellFlags, ShellStep, clean_shell_output, trim_spaces, choose_shell, shell_invocation_args, shell_resolution_next};
pub use strutil::{u64_to_string, duration_to_string};
