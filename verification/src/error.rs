//! The errors of the engine.

use vstd::prelude::*;

use crate::text::concat2;

verus! {

/// What went wrong, with a message. Failures of the file system and of the
/// parsers are carried by their message.
#[derive(Debug)]
pub enum Error {
    Io(String),
    Safetensors(String),
    Serde(String),
    Tokenizer(String),
    ModelLoad(String),
    UnsupportedArchitecture(String),
    InvalidConfig(String),
    Inference(String),
    Other(String),
}

/// An [`Error`] with its message as a sequence of characters.
pub enum ErrorView {
    Io(Seq<char>),
    Safetensors(Seq<char>),
    Serde(Seq<char>),
    Tokenizer(Seq<char>),
    ModelLoad(Seq<char>),
    UnsupportedArchitecture(Seq<char>),
    InvalidConfig(Seq<char>),
    Inference(Seq<char>),
    Other(Seq<char>),
}

impl View for Error {
    type V = ErrorView;

    open spec fn view(&self) -> ErrorView {
        match self {
            Error::Io(s) => ErrorView::Io(s@),
            Error::Safetensors(s) => ErrorView::Safetensors(s@),
            Error::Serde(s) => ErrorView::Serde(s@),
            Error::Tokenizer(s) => ErrorView::Tokenizer(s@),
            Error::ModelLoad(s) => ErrorView::ModelLoad(s@),
            Error::UnsupportedArchitecture(s) => ErrorView::UnsupportedArchitecture(s@),
            Error::InvalidConfig(s) => ErrorView::InvalidConfig(s@),
            Error::Inference(s) => ErrorView::Inference(s@),
            Error::Other(s) => ErrorView::Other(s@),
        }
    }
}

impl ErrorView {
    /// The text shown to a user: the kind of the error, then its message.
    pub open spec fn shown(self) -> Seq<char> {
        match self {
            ErrorView::Io(s) => "io: "@ + s,
            ErrorView::Safetensors(s) => "safetensors: "@ + s,
            ErrorView::Serde(s) => "serde: "@ + s,
            ErrorView::Tokenizer(s) => "tokenizer: "@ + s,
            ErrorView::ModelLoad(s) => "model load: "@ + s,
            ErrorView::UnsupportedArchitecture(s) => "unsupported architecture: "@ + s,
            ErrorView::InvalidConfig(s) => "invalid config: "@ + s,
            ErrorView::Inference(s) => "inference: "@ + s,
            ErrorView::Other(s) => "other: "@ + s,
        }
    }
}

impl Error {
    /// The text shown to a user.
    pub fn message(&self) -> (r: String)
        ensures
            r@ == self@.shown(),
    {
        match self {
            Error::Io(s) => concat2("io: ", s.as_str()),
            Error::Safetensors(s) => concat2("safetensors: ", s.as_str()),
            Error::Serde(s) => concat2("serde: ", s.as_str()),
            Error::Tokenizer(s) => concat2("tokenizer: ", s.as_str()),
            Error::ModelLoad(s) => concat2("model load: ", s.as_str()),
            Error::UnsupportedArchitecture(s) => concat2("unsupported architecture: ", s.as_str()),
            Error::InvalidConfig(s) => concat2("invalid config: ", s.as_str()),
            Error::Inference(s) => concat2("inference: ", s.as_str()),
            Error::Other(s) => concat2("other: ", s.as_str()),
        }
    }
}

} // verus!
