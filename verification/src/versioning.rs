//! The versioning-policy extractor: the `versioning` key of the main
//! document names a format and, for header-based versioning, a header.

use vstd::prelude::*;

use crate::doc::{DocValue, spec_map_get};
use crate::schema::{SpecVersioning, Versioning, VersioningFormat, view_versioning};

verus! {

#[derive(Debug, PartialEq)]
pub enum VersioningError {
    NotFound,
    UnsupportedFormat(String),
    MissingHeader,
}

pub ghost enum SpecVersioningError {
    NotFound,
    UnsupportedFormat(Seq<char>),
    MissingHeader,
}

pub open spec fn view_versioning_err(e: VersioningError) -> SpecVersioningError {
    match e {
        VersioningError::NotFound => SpecVersioningError::NotFound,
        VersioningError::UnsupportedFormat(f) => SpecVersioningError::UnsupportedFormat(f@),
        VersioningError::MissingHeader => SpecVersioningError::MissingHeader,
    }
}

impl VersioningError {
    /// One-line description of the failure.
    pub fn default_fmt(&self) -> (r: String)
        ensures
            match self {
                VersioningError::NotFound => r@ == "Versioning info wasn't found in schema."@,
                VersioningError::UnsupportedFormat(f) => r@ == "'"@ + f@ + "' format is not supported for versioning"@,
                VersioningError::MissingHeader => r@ == "Missing 'header' key inside 'versioning'."@,
            },
    {
        match self {
            VersioningError::NotFound => "Versioning info wasn't found in schema.".to_owned(),
            VersioningError::UnsupportedFormat(key) => "'".to_owned().concat(key.as_str()).concat(
                "' format is not supported for versioning",
            ),
            VersioningError::MissingHeader => "Missing 'header' key inside 'versioning'.".to_owned(),
        }
    }
}

/// What the `versioning` key of the main document yields: only the
/// `headers` format is supported, and it requires a `header` name.
pub open spec fn spec_parse_versioning(main: DocValue) -> Result<SpecVersioning, SpecVersioningError> {
    match main {
        DocValue::Hash(m) => match spec_map_get(m@, "versioning"@) {
            Some(DocValue::Hash(vm)) => match spec_map_get(vm@, "format"@) {
                Some(DocValue::Str(f)) => if f@ == "headers"@ {
                    match spec_map_get(vm@, "header"@) {
                        Some(DocValue::Str(h)) => Ok(
                            SpecVersioning { format: VersioningFormat::Headers, header: Some(h@) },
                        ),
                        _ => Err(SpecVersioningError::MissingHeader),
                    }
                } else {
                    Err(SpecVersioningError::UnsupportedFormat(f@))
                },
                _ => Err(SpecVersioningError::NotFound),
            },
            _ => Err(SpecVersioningError::NotFound),
        },
        _ => Err(SpecVersioningError::NotFound),
    }
}

/// Extractor for the `versioning` section of the main document.
pub struct VersioningParser {
}

impl VersioningParser {
    /// Extract the versioning policy (see [`spec_parse_versioning`]).
    pub fn parse(main: &DocValue) -> (r: Result<Versioning, VersioningError>)
        ensures
            match r {
                Ok(v) => spec_parse_versioning(*main) == Ok::<SpecVersioning, SpecVersioningError>(
                    view_versioning(v),
                ),
                Err(e) => spec_parse_versioning(*main) == Err::<SpecVersioning, SpecVersioningError>(
                    view_versioning_err(e),
                ),
            },
    {
        let entries = match main {
            DocValue::Hash(m) => m,
            _ => {
                return Err(VersioningError::NotFound);
            },
        };
        let vm = match crate::doc::map_get(entries, "versioning") {
            Some(DocValue::Hash(vm)) => vm,
            _ => {
                return Err(VersioningError::NotFound);
            },
        };
        let format = match crate::doc::map_get(vm, "format") {
            Some(DocValue::Str(f)) => f,
            _ => {
                return Err(VersioningError::NotFound);
            },
        };
        if !crate::doc::str_eq(format.as_str(), "headers") {
            return Err(VersioningError::UnsupportedFormat(format.clone()));
        }
        match crate::doc::map_get(vm, "header") {
            Some(DocValue::Str(h)) => Ok(
                Versioning { format: VersioningFormat::Headers, header: Some(h.clone()) },
            ),
            _ => Err(VersioningError::MissingHeader),
        }
    }
}

} // verus!
