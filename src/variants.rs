//! The encodings a document is read from and written to, chosen by flag or by
//! file extension.
use vstd::prelude::*;

use crate::text::{opt_view, same_text};

verus! {

/// What `Path::extension` gives for a path: the part of its final component
/// after the last `.`, if there is one.
pub uninterp spec fn extension_of(path: Seq<char>) -> Option<Seq<char>>;

/// Relies on `std::path::Path::extension`: the extension depends on the path's
/// text alone.
#[verifier::external_body]
fn path_extension(path: &str) -> (r: Option<String>)
    ensures
        opt_view(r) == extension_of(path@),
{
    std::path::Path::new(path).extension().and_then(|e| e.to_str()).map(|e| e.to_owned())
}

/// An encoding that documents are decoded from.
#[derive(Debug, Clone, Copy, PartialEq, Eq, Structural)]
pub enum FromVariant {
    Json,
    Yaml,
    Cbor,
    Ron,
    Toml,
    Bson,
}

/// An encoding that documents are written to; `Systemd` and `Quadlet` are the
/// two synthesizing destinations.
#[derive(Debug, Clone, Copy, PartialEq, Eq, Structural)]
pub enum ToVariant {
    Pickle,
    Bincode,
    Postcard,
    Flexbuffers,
    Json,
    PrettyJson,
    Yaml,
    Cbor,
    Ron,
    PrettyRon,
    Toml,
    Bson,
    Ini,
    Systemd,
    Quadlet,
}

/// The source encoding that a file extension names.
pub open spec fn source_for_extension(e: Seq<char>) -> Option<FromVariant> {
    if e == "bson"@ || e == "bs"@ {
        Some(FromVariant::Bson)
    } else if e == "cbor"@ || e == "cb"@ {
        Some(FromVariant::Cbor)
    } else if e == "json"@ {
        Some(FromVariant::Json)
    } else if e == "ron"@ {
        Some(FromVariant::Ron)
    } else if e == "toml"@ || e == "service"@ {
        Some(FromVariant::Toml)
    } else if e == "yaml"@ || e == "yml"@ {
        Some(FromVariant::Yaml)
    } else {
        None
    }
}

/// The destination encoding that a file extension names.
pub open spec fn target_for_extension(e: Seq<char>) -> Option<ToVariant> {
    if e == "bincode"@ || e == "bc"@ {
        Some(ToVariant::Bincode)
    } else if e == "bson"@ || e == "bs"@ {
        Some(ToVariant::Bson)
    } else if e == "cbor"@ || e == "cb"@ {
        Some(ToVariant::Cbor)
    } else if e == "yaml"@ || e == "yml"@ {
        Some(ToVariant::Yaml)
    } else if e == "flexbuffers"@ || e == "fb"@ {
        Some(ToVariant::Flexbuffers)
    } else if e == "postcard"@ || e == "pc"@ {
        Some(ToVariant::Postcard)
    } else if e == "pickle"@ || e == "pkl"@ {
        Some(ToVariant::Pickle)
    } else if e == "json"@ {
        Some(ToVariant::Json)
    } else if e == "hjson"@ {
        Some(ToVariant::PrettyJson)
    } else if e == "ron"@ {
        Some(ToVariant::Ron)
    } else if e == "hron"@ {
        Some(ToVariant::PrettyRon)
    } else if e == "toml"@ {
        Some(ToVariant::Toml)
    } else if e == "ini"@ {
        Some(ToVariant::Ini)
    } else {
        None
    }
}

/// The destination encoding of the same name as a source encoding.
pub open spec fn same_encoding(v: FromVariant) -> ToVariant {
    match v {
        FromVariant::Json => ToVariant::Json,
        FromVariant::Yaml => ToVariant::Yaml,
        FromVariant::Cbor => ToVariant::Cbor,
        FromVariant::Ron => ToVariant::Ron,
        FromVariant::Toml => ToVariant::Toml,
        FromVariant::Bson => ToVariant::Bson,
    }
}

impl FromVariant {
    /// The source encoding that extension `ext` names, if any.
    pub fn from_extension(ext: &str) -> (r: Option<FromVariant>)
        ensures
            r == source_for_extension(ext@),
    {
        if same_text(ext, "bson") || same_text(ext, "bs") {
            Some(FromVariant::Bson)
        } else if same_text(ext, "cbor") || same_text(ext, "cb") {
            Some(FromVariant::Cbor)
        } else if same_text(ext, "json") {
            Some(FromVariant::Json)
        } else if same_text(ext, "ron") {
            Some(FromVariant::Ron)
        } else if same_text(ext, "toml") || same_text(ext, "service") {
            Some(FromVariant::Toml)
        } else if same_text(ext, "yaml") || same_text(ext, "yml") {
            Some(FromVariant::Yaml)
        } else {
            None
        }
    }

    /// The source encoding that the extension of `path` names; `None` where
    /// the path has no extension or an unknown one.
    pub fn from_path(path: &str) -> (r: Option<FromVariant>)
        ensures
            r == match extension_of(path@) {
                Some(e) => source_for_extension(e),
                None => None,
            },
    {
        match path_extension(path) {
            Some(e) => FromVariant::from_extension(e.as_str()),
            None => None,
        }
    }
}

impl ToVariant {
    /// The destination encoding that extension `ext` names, if any.
    pub fn from_extension(ext: &str) -> (r: Option<ToVariant>)
        ensures
            r == target_for_extension(ext@),
    {
        if same_text(ext, "bincode") || same_text(ext, "bc") {
            Some(ToVariant::Bincode)
        } else if same_text(ext, "bson") || same_text(ext, "bs") {
            Some(ToVariant::Bson)
        } else if same_text(ext, "cbor") || same_text(ext, "cb") {
            Some(ToVariant::Cbor)
        } else if same_text(ext, "yaml") || same_text(ext, "yml") {
            Some(ToVariant::Yaml)
        } else if same_text(ext, "flexbuffers") || same_text(ext, "fb") {
            Some(ToVariant::Flexbuffers)
        } else if same_text(ext, "postcard") || same_text(ext, "pc") {
            Some(ToVariant::Postcard)
        } else if same_text(ext, "pickle") || same_text(ext, "pkl") {
            Some(ToVariant::Pickle)
        } else if same_text(ext, "json") {
            Some(ToVariant::Json)
        } else if same_text(ext, "hjson") {
            Some(ToVariant::PrettyJson)
        } else if same_text(ext, "ron") {
            Some(ToVariant::Ron)
        } else if same_text(ext, "hron") {
            Some(ToVariant::PrettyRon)
        } else if same_text(ext, "toml") {
            Some(ToVariant::Toml)
        } else if same_text(ext, "ini") {
            Some(ToVariant::Ini)
        } else {
            None
        }
    }

    /// The destination encoding that the extension of `path` names; `None`
    /// where the path has no extension or an unknown one.
    pub fn from_path(path: &str) -> (r: Option<ToVariant>)
        ensures
            r == match extension_of(path@) {
                Some(e) => target_for_extension(e),
                None => None,
            },
    {
        match path_extension(path) {
            Some(e) => ToVariant::from_extension(e.as_str()),
            None => None,
        }
    }

    /// The destination of a run: the one asked for, else the one the output
    /// path's extension names, else the source encoding.
    pub fn select(to: Option<ToVariant>, output: Option<&str>, from: FromVariant) -> (r: ToVariant)
        ensures
            r == match to {
                Some(t) => t,
                None => match output {
                    Some(o) => match extension_of(o@) {
                        Some(e) => match target_for_extension(e) {
                            Some(t) => t,
                            None => same_encoding(from),
                        },
                        None => same_encoding(from),
                    },
                    None => same_encoding(from),
                },
            },
    {
        match to {
            Some(t) => t,
            None => {
                let by_path = match output {
                    Some(o) => ToVariant::from_path(o),
                    None => None,
                };
                match by_path {
                    Some(t) => t,
                    None => ToVariant::from(from),
                }
            },
        }
    }

    /// Whether this destination synthesizes units rather than re-encoding.
    pub fn is_synthesizing(&self) -> (r: bool)
        ensures
            r == (*self == ToVariant::Systemd || *self == ToVariant::Quadlet),
    {
        match self {
            ToVariant::Systemd | ToVariant::Quadlet => true,
            _ => false,
        }
    }
}

impl From<FromVariant> for ToVariant {
    fn from(variant: FromVariant) -> (r: ToVariant)
        ensures
            r == same_encoding(variant),
    {
        match variant {
            FromVariant::Json => ToVariant::Json,
            FromVariant::Yaml => ToVariant::Yaml,
            FromVariant::Cbor => ToVariant::Cbor,
            FromVariant::Ron => ToVariant::Ron,
            FromVariant::Toml => ToVariant::Toml,
            FromVariant::Bson => ToVariant::Bson,
        }
    }
}

impl vstd::std_specs::convert::FromSpecImpl<FromVariant> for ToVariant {
    open spec fn obeys_from_spec() -> bool {
        true
    }

    open spec fn from_spec(v: FromVariant) -> ToVariant {
        same_encoding(v)
    }
}

} // verus!
