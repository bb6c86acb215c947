//! The library's error type.
//!
//! Fatal validation errors, transient-failure exhaustion and updater
//! failures are all reported through [`LibError`]; `message` renders the
//! human-readable text that callers print.

use vstd::prelude::*;
use vstd::string::*;
use crate::strutil::concat3;

verus! {

#[derive(Debug, Clone, PartialEq, Eq)]
pub enum LibError {
    /// The application name derived from configuration or executable is empty.
    EmptyAppName,
    /// The running executable's file name has an empty stem.
    EmptyExeName,
    /// A shortcut was requested under an empty name.
    EmptyShortcutName,
    /// A configuration field that must be present is blank; holds the field name.
    RequiredField(String),
    /// The configured entry point string is empty.
    EmptyEntryPoint,
    /// An explicit `module:` entry point names no module.
    EmptyEntryModule,
    /// An explicit `command:` entry point names no command.
    EmptyEntryCommand,
    /// No entry point was configured and the default entry file is missing.
    MissingDefaultEntry,
    /// A configured entry-point file does not exist in the project.
    MissingConfiguredEntry,
    /// The state file is absent.
    StateNotFound,
    /// The state file does not deserialize.
    StateCorrupt,
    /// The installed version is newer than the running binary.
    Downgrade,
    /// The embedded launcher image is empty.
    EmptyShim,
    /// A payload archive entry names an absolute or parent-escaping path.
    BadPayloadPath,
    /// The payload archive itself is empty or unreadable.
    BadPayload,
    /// No project directory with a project manifest was found.
    NoProject,
    /// The runtime's primary executable is missing after installation.
    MissingUv,
    /// The host CPU architecture has no runtime download asset.
    UnsupportedArch,
    /// An external tool kept exiting non-zero; holds the last exit code.
    ToolFailed(i32),
    /// An external command could not be started at all.
    SpawnFailed,
    /// A network fetch failed or returned a non-success status.
    FetchFailed,
    /// The update manifest does not parse.
    ManifestCorrupt,
    /// The update manifest carries an empty version.
    ManifestEmptyVersion,
    /// The update manifest carries an empty installer location.
    ManifestEmptyUrl,
    /// The downloaded installer's digest does not match the manifest.
    HashMismatch,
    /// A rename could not be performed because the target already exists.
    RenameTargetExists,
    /// A file that a step needs is missing; holds its path.
    MissingFile(String),
    /// A write destination names no parent directory or no file name.
    BadDestPath,
    /// A destination stayed locked or busy through every attempt.
    FileBusy,
    /// The install root could not be removed during uninstall.
    RootRemoveFailed,
    /// The downloaded installer could not be kept on disk.
    SaveFailed,
    /// The program entry point exited with a failure; holds the exit code.
    EntryFailed(i32),
}

impl LibError {
    /// The error text shown to the invoker.
    pub fn message(&self) -> (r: String)
        ensures
            self matches LibError::RequiredField(f) ==> r@ == "config field "@ + f@
                + " is required"@,
            self is EmptyExeName ==> r@ == "executable name is empty"@,
            self is EmptyShortcutName ==> r@ == "shortcut name is empty"@,
            self is UnsupportedArch ==> r@ == "unsupported Windows arch"@,
            self is HashMismatch ==> r@ == "installer sha256 mismatch"@,
    {
        match self {
            LibError::EmptyAppName => "app_name is empty".to_owned(),
            LibError::EmptyExeName => "executable name is empty".to_owned(),
            LibError::EmptyShortcutName => "shortcut name is empty".to_owned(),
            LibError::RequiredField(f) => concat3("config field ", f.as_str(), " is required"),
            LibError::EmptyEntryPoint => "entry_point is empty".to_owned(),
            LibError::EmptyEntryModule => "entry_point module is empty".to_owned(),
            LibError::EmptyEntryCommand => "entry_point command is empty".to_owned(),
            LibError::MissingDefaultEntry => "Default entrypoint main.py not found".to_owned(),
            LibError::MissingConfiguredEntry => "Configured entry_point not found".to_owned(),
            LibError::StateNotFound => "state file not found".to_owned(),
            LibError::StateCorrupt => "state file does not parse".to_owned(),
            LibError::Downgrade => "installed version is newer than this binary".to_owned(),
            LibError::EmptyShim => "embedded shim is empty".to_owned(),
            LibError::BadPayloadPath => "invalid path in payload zip".to_owned(),
            LibError::BadPayload => "embedded payload is empty".to_owned(),
            LibError::NoProject => "No project found: expected app/<project>/pyproject.toml".to_owned(),
            LibError::MissingUv => "uv.exe not found after install".to_owned(),
            LibError::UnsupportedArch => "unsupported Windows arch".to_owned(),
            LibError::ToolFailed(_) => "command failed after retries".to_owned(),
            LibError::SpawnFailed => "spawn command failed".to_owned(),
            LibError::FetchFailed => "http request failed".to_owned(),
            LibError::ManifestCorrupt => "parse manifest JSON failed".to_owned(),
            LibError::ManifestEmptyVersion => "manifest version is empty".to_owned(),
            LibError::ManifestEmptyUrl => "manifest installer_url is empty".to_owned(),
            LibError::HashMismatch => "installer sha256 mismatch".to_owned(),
            LibError::RenameTargetExists => "rename target already exists".to_owned(),
            LibError::MissingFile(p) => concat3("file not found: ", p.as_str(), ""),
            LibError::BadDestPath => "dest has no parent or no filename".to_owned(),
            LibError::FileBusy => "file is locked or busy".to_owned(),
            LibError::RootRemoveFailed => "remove install root failed".to_owned(),
            LibError::SaveFailed => "persist temp installer file failed".to_owned(),
            LibError::EntryFailed(_) => "entrypoint failed".to_owned(),
        }
    }
}

} // verus!
