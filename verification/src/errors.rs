//! The error taxonomy of the extension host and the cache orchestrator.

use vstd::prelude::*;

verus! {

/// Failures of the extension registry's load/unload operations.
#[derive(Clone, Copy, Debug, PartialEq, Eq, Structural)]
pub enum LoadError {
    /// The module's declared core-ABI or toolchain version differs from
    /// the host's; registering such a module is never safe.
    AbiMismatch,
    /// A handle for that source name is already present.
    AlreadyLoaded,
    /// No handle for that source name is present.
    NotLoaded,
}

/// Failures of the install flow.
#[derive(Clone, Copy, Debug, PartialEq, Eq, Structural)]
pub enum InstallError {
    /// The catalog has no entry under the requested name.
    SourceNotFound,
    /// No binary suffix applies to this platform.
    UnsupportedPlatform,
    /// Transport failure while downloading the module binary.
    DownloadError,
    /// Local filesystem failure while writing the module binary.
    WriteError,
    /// The freshly installed module was refused by the registry.
    Load(LoadError),
}

/// Failures of the content cache/fetch orchestrator.
#[derive(Clone, Copy, Debug, PartialEq, Eq, Structural)]
pub enum CacheError {
    /// No provider is currently loaded for the requested source.
    NotInstalled,
    /// The requested entity is absent from the cache and cannot be
    /// recovered from a provider.
    NotFound,
    /// The requested chapter id is absent from the manga's chapters.
    ChapterNotFound,
    /// A provider call failed (auth, parse or upstream failure).
    ProviderError,
}

impl LoadError {
    /// A short description, for callers that render errors.
    pub fn describe(&self) -> String {
        match self {
            LoadError::AbiMismatch => "core ABI or toolchain version mismatch".to_string(),
            LoadError::AlreadyLoaded => "extension already loaded".to_string(),
            LoadError::NotLoaded => "extension not loaded".to_string(),
        }
    }
}

impl CacheError {
    /// A short description, for callers that render errors.
    pub fn describe(&self) -> String {
        match self {
            CacheError::NotInstalled => "source not installed".to_string(),
            CacheError::NotFound => "not found".to_string(),
            CacheError::ChapterNotFound => "chapter not found".to_string(),
            CacheError::ProviderError => "provider call failed".to_string(),
        }
    }
}

} // verus!
