pub mod authorization;
pub mod closing;
pub mod daemon;
pub mod digest;
pub mod environment;
pub mod error;
pub mod execution;
pub mod identifier;
pub mod limits;
pub mod lines;
pub mod linux_backend;
pub mod macos_backend;
pub mod native;
pub mod output;
pub mod path;
pub mod policy;
pub mod protocol;
pub mod seatbelt;
pub mod session;
pub mod string_map;
pub mod text;
pub mod unix_backend;
pub mod unix_launch;
pub mod upgrade;
pub mod windows_acl;
pub mod windows_backend;
pub mod windows_environment;
pub mod windows_quoting;
pub mod windows_user_backend;
pub mod workdir;
