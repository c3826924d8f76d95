pub mod text;
pub mod redirection;
pub mod completer;
pub mod builtins;
pub mod history;
pub mod pipeline;
pub mod dispatch;
pub mod search;
