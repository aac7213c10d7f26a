pub mod config;
pub mod desktop_settings;
pub mod embedded;
pub mod host_lifecycle;
pub mod json;
pub mod launch;
pub mod manager;
pub mod lan_proxy;
pub mod mode;
pub mod notifications;
pub mod paths;
pub mod plugin_ops;
pub mod process;
pub mod profiles;
pub mod projects;
pub mod runtime;
pub mod search_path;
pub mod text;
pub mod theme;
pub mod urls;
pub mod window;
