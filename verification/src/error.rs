//! The error type shared by the whole library.

use vstd::prelude::*;
use vstd::string::*;

verus! {

/// What part of the runtime an error comes from.
#[derive(Clone, Copy, Debug, PartialEq, Eq, Structural)]
pub enum ErrorKind {
    Config,
    Io,
    Weights,
    Quant,
    Ple,
    Kv,
    Tokenizer,
    Json,
    Safetensors,
    Metal,
}

/// An error with its message.
#[derive(Clone, Debug)]
pub enum Error {
    Config(String),
    Io(String),
    Weights(String),
    Quant(String),
    Ple(String),
    Kv(String),
    Tokenizer(String),
    Json(String),
    Safetensors(String),
    Metal(String),
}

/// The result type of the library.
pub type Result<T> = std::result::Result<T, Error>;

/// An error as a mathematical value: its kind and its message.
pub struct ErrorV {
    pub kind: ErrorKind,
    pub text: Seq<char>,
}

impl View for Error {
    type V = ErrorV;

    open spec fn view(&self) -> ErrorV {
        match *self {
            Error::Config(m) => ErrorV { kind: ErrorKind::Config, text: m@ },
            Error::Io(m) => ErrorV { kind: ErrorKind::Io, text: m@ },
            Error::Weights(m) => ErrorV { kind: ErrorKind::Weights, text: m@ },
            Error::Quant(m) => ErrorV { kind: ErrorKind::Quant, text: m@ },
            Error::Ple(m) => ErrorV { kind: ErrorKind::Ple, text: m@ },
            Error::Kv(m) => ErrorV { kind: ErrorKind::Kv, text: m@ },
            Error::Tokenizer(m) => ErrorV { kind: ErrorKind::Tokenizer, text: m@ },
            Error::Json(m) => ErrorV { kind: ErrorKind::Json, text: m@ },
            Error::Safetensors(m) => ErrorV { kind: ErrorKind::Safetensors, text: m@ },
            Error::Metal(m) => ErrorV { kind: ErrorKind::Metal, text: m@ },
        }
    }
}

/// A configuration error with the given text.
pub open spec fn config_error(text: Seq<char>) -> ErrorV {
    ErrorV { kind: ErrorKind::Config, text }
}

/// A key/value cache error with the given text.
pub open spec fn kv_error(text: Seq<char>) -> ErrorV {
    ErrorV { kind: ErrorKind::Kv, text }
}

/// A weight-bank error with the given text.
pub open spec fn weights_error(text: Seq<char>) -> ErrorV {
    ErrorV { kind: ErrorKind::Weights, text }
}

/// A device error with the given text.
pub open spec fn metal_error(text: Seq<char>) -> ErrorV {
    ErrorV { kind: ErrorKind::Metal, text }
}

/// The label that stands before the message of an error of this kind.
pub open spec fn kind_label(kind: ErrorKind) -> Seq<char> {
    match kind {
        ErrorKind::Config => "config: "@,
        ErrorKind::Io => "io: "@,
        ErrorKind::Weights => "weights: "@,
        ErrorKind::Quant => "quant: "@,
        ErrorKind::Ple => "ple: "@,
        ErrorKind::Kv => "kv: "@,
        ErrorKind::Tokenizer => "tokenizer: "@,
        ErrorKind::Json => "json: "@,
        ErrorKind::Safetensors => "safetensors: "@,
        ErrorKind::Metal => "metal: "@,
    }
}

/// `label` followed by `message`.
fn labelled(label: &str, message: &String) -> (r: String)
    ensures
        r@ == label@ + message@,
{
    let mut out = String::from_str(label);
    out.append(message.as_str());
    out
}

impl Error {
    /// The same error again.
    pub fn copied(&self) -> (r: Error)
        ensures
            r@ == self@,
    {
        match self {
            Error::Config(m) => Error::Config(String::from_str(m.as_str())),
            Error::Io(m) => Error::Io(String::from_str(m.as_str())),
            Error::Weights(m) => Error::Weights(String::from_str(m.as_str())),
            Error::Quant(m) => Error::Quant(String::from_str(m.as_str())),
            Error::Ple(m) => Error::Ple(String::from_str(m.as_str())),
            Error::Kv(m) => Error::Kv(String::from_str(m.as_str())),
            Error::Tokenizer(m) => Error::Tokenizer(String::from_str(m.as_str())),
            Error::Json(m) => Error::Json(String::from_str(m.as_str())),
            Error::Safetensors(m) => Error::Safetensors(String::from_str(m.as_str())),
            Error::Metal(m) => Error::Metal(String::from_str(m.as_str())),
        }
    }

    /// The message as it is shown to a user: the kind's label and the text.
    pub fn message(&self) -> (r: String)
        ensures
            r@ == kind_label(self@.kind) + self@.text,
    {
        match self {
            Error::Config(m) => labelled("config: ", m),
            Error::Io(m) => labelled("io: ", m),
            Error::Weights(m) => labelled("weights: ", m),
            Error::Quant(m) => labelled("quant: ", m),
            Error::Ple(m) => labelled("ple: ", m),
            Error::Kv(m) => labelled("kv: ", m),
            Error::Tokenizer(m) => labelled("tokenizer: ", m),
            Error::Json(m) => labelled("json: ", m),
            Error::Safetensors(m) => labelled("safetensors: ", m),
            Error::Metal(m) => labelled("metal: ", m),
        }
    }
}

/// A failure whose error has a given kind and text.
pub open spec fn fails_with<T>(r: Result<T>, e: ErrorV) -> bool {
    match r {
        Ok(_) => false,
        Err(x) => x@ == e,
    }
}

} // verus!
