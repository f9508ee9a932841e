//! Client-side engine for a remote chat-completion API: a self-issued signed
//! bearer token, mode dispatch over user input, request-body construction,
//! response normalisation across three wire shapes, and the conversation log
//! that feeds each request.
pub mod text;
pub mod cleanup;
pub mod json;
pub mod response;
pub mod token;
pub mod dispatch;
pub mod history;
pub mod request;
pub mod poll;
pub mod modes;

pub use token::{APIKeys, CustomJwt};
pub use dispatch::{Command, Mode, RustGLM};
pub use history::{HistoryMessage, MessageProcessor, Turn};
pub use request::{ChatConfig, ChatConfigFields, ChatFamily, ConfigError};
pub use response::ResponseError;
pub use poll::{PollAction, PollFailure};
pub use modes::{
    AsyncInvokeModel, CogViewInvokeModel, GLM4vInvokeModel, Receive4VInvokeModelwithText,
    ReceiveAsyncInvokeOnlyText, ReceiveCogviewInvokeModel, ReceiveInvokeModelOnlyText,
    ReceiveSSEInvokeModelOnlyText, SSEInvokeModel, SyncInvokeModel,
};
