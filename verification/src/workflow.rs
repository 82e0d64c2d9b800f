//! The decisions of an encrypt or decrypt request: which checks refuse it,
//! what goes into the payload, where the output goes and what is reported.
//! Reading, writing and walking the file system are left to the caller, which
//! hands in what it found.

use vstd::prelude::*;
use crate::crypto::{is_crypto_message, CryptoError};
use crate::naming::{
    is_safe_entry_path,
    ensure_safe_archive_path, is_safe_relative, is_valid_name, lemma_valid_name_is_appendable,
    single_component_name, validated_name,
};
use crate::path_laws::{appended_component, lemma_join_parent_is_sibling};
use crate::path::{
    PathStyle,components, file_name, join, join_path, parent, parent_of};
use crate::payload::{Payload, PayloadKind};

verus! {

/// Why a request was refused.
#[derive(Debug)]
pub enum AppError {
    MissingPassword,
    MissingPath,
    PathDoesNotExist,
    DecryptRequiresFile,
    UnsupportedInputType,
    UnsupportedSymlink,
    InvalidStoredName,
    UnsafeArchivePath,
    MissingFileName,
    Crypto(CryptoError),
}

/// Whether a request seals or opens.
#[derive(Debug, Clone, Copy, PartialEq, Eq, Structural)]
pub enum OperationMode {
    Encrypt,
    Decrypt,
}

/// A request from the user interface.
#[derive(Debug, Clone)]
pub struct ProcessRequest {
    pub path: String,
    pub password: String,
    pub mode: OperationMode,
}

/// What the user interface is told after a request succeeded.
#[derive(Debug)]
pub struct ProcessResponse {
    pub output_path: String,
    pub output_kind: &'static str,
    pub message: String,
}

/// Checks a request before any work: a password and a path must be given,
/// the path must exist, and opening needs a file. Gives the operation to run.
pub fn process_item_impl(request: &ProcessRequest, path_exists: bool, path_is_file: bool) -> (r: Result<OperationMode, AppError>)
    ensures
        match r {
            Ok(mode) => {
                &&& request.password@.len() > 0
                &&& request.path@.len() > 0
                &&& path_exists
                &&& mode == request.mode
                &&& (mode == OperationMode::Decrypt ==> path_is_file)
            },
            Err(AppError::MissingPassword) => request.password@.len() == 0,
            Err(AppError::MissingPath) => request.password@.len() > 0 && request.path@.len() == 0,
            Err(AppError::PathDoesNotExist) => request.password@.len() > 0 && request.path@.len() > 0
                && !path_exists,
            Err(AppError::DecryptRequiresFile) => request.password@.len() > 0 && request.path@.len()
                > 0 && path_exists && request.mode == OperationMode::Decrypt && !path_is_file,
            Err(_) => false,
        },
{
    if request.password.as_str().is_empty() {
        return Err(AppError::MissingPassword);
    }
    if request.path.as_str().is_empty() {
        return Err(AppError::MissingPath);
    }
    if !path_exists {
        return Err(AppError::PathDoesNotExist);
    }
    match request.mode {
        OperationMode::Encrypt => Ok(OperationMode::Encrypt),
        OperationMode::Decrypt => {
            if !path_is_file {
                return Err(AppError::DecryptRequiresFile);
            }
            Ok(OperationMode::Decrypt)
        },
    }
}

/// What the selected path turned out to be.
#[derive(Debug, Clone, Copy, PartialEq, Eq, Structural)]
pub enum InputKind {
    File,
    Directory,
    Other,
}

/// The kind and the stored name of the payload that sealing a path makes.
#[derive(Debug)]
pub struct EncryptionSource {
    pub kind: PayloadKind,
    pub original_name: String,
}

/// Decides what sealing a path stores: a file as itself, a folder as an
/// archive, each under its file name; anything else is refused.
pub fn plan_encryption(style: PathStyle, input_path: &str, input: InputKind) -> (r: Result<EncryptionSource, AppError>)
    ensures
        match r {
            Ok(source) => {
                &&& input != InputKind::Other
                &&& source.kind == (if input == InputKind::File {
                    PayloadKind::File
                } else {
                    PayloadKind::DirectoryArchive
                })
                &&& file_name(style, input_path@) == Some(source.original_name@)
                &&& is_valid_name(source.original_name@)
            },
            Err(AppError::UnsupportedInputType) => input == InputKind::Other,
            Err(AppError::MissingFileName) => input != InputKind::Other && file_name(style, input_path@) is None,
            Err(AppError::InvalidStoredName) => input != InputKind::Other && (file_name(style, 
                input_path@,
            ) matches Some(n) && !is_valid_name(n)),
            Err(_) => false,
        },
{
    let kind = match input {
        InputKind::File => PayloadKind::File,
        InputKind::Directory => PayloadKind::DirectoryArchive,
        InputKind::Other => return Err(AppError::UnsupportedInputType),
    };
    let original_name = single_component_name(style, input_path)?;
    Ok(EncryptionSource { kind, original_name })
}

/// A response that names the written path.
fn response(output_path: &str, output_kind: &'static str, lead: &str) -> (r: ProcessResponse)
    ensures
        r.output_path@ == output_path@,
        r.output_kind@ == output_kind@,
        r.message@ == lead@ + output_path@ + "."@,
{
    let mut message = String::from_str(lead);
    message.append(output_path);
    message.append(".");
    ProcessResponse { output_path: String::from_str(output_path), output_kind, message }
}

/// The response after a sealed file was written.
pub fn encrypted_response(output_path: &str) -> (r: ProcessResponse)
    ensures
        r.output_path@ == output_path@,
        r.output_kind@ == "file"@,
        r.message@ == "Encrypted item written to "@ + output_path@ + "."@,
{
    response(output_path, "file", "Encrypted item written to ")
}

/// Where an opened payload is restored, before a free name is searched: its
/// stored name, checked again, next to the sealed file.
pub fn decrypted_target(style: PathStyle, input_path: &str, payload: &Payload) -> (r: Result<String, AppError>)
    ensures
        match r {
            Ok(out) => {
                &&& is_valid_name(payload.original_name@)
                &&& parent(style, input_path@) is Some
                &&& out@ == join(style, parent(style, input_path@)->0, payload.original_name@)
                &&& parent(style, out@) == parent(style, input_path@)
                &&& file_name(style, out@) == Some(appended_component(style, payload.original_name@))
            },
            Err(AppError::InvalidStoredName) => !is_valid_name(payload.original_name@),
            Err(AppError::MissingFileName) => is_valid_name(payload.original_name@) && parent(style, 
                input_path@,
            ) is None,
            Err(_) => false,
        },
{
    let safe_name = validated_name(payload.original_name.as_str())?;
    let output_parent = match parent_of(style, input_path) {
        Some(p) => p,
        None => return Err(AppError::MissingFileName),
    };
    proof {
        lemma_valid_name_is_appendable(style, payload.original_name@);
        lemma_join_parent_is_sibling(style, input_path@, payload.original_name@);
    }
    Ok(join_path(style, output_parent.as_str(), safe_name))
}

/// The response after an opened payload was restored.
pub fn decrypted_response(output_path: &str, kind: PayloadKind) -> (r: ProcessResponse)
    ensures
        r.output_path@ == output_path@,
        kind == PayloadKind::File ==> r.output_kind@ == "file"@ && r.message@
            == "Decrypted file written to "@ + output_path@ + "."@,
        kind == PayloadKind::DirectoryArchive ==> r.output_kind@ == "folder"@ && r.message@
            == "Decrypted folder restored to "@ + output_path@ + "."@,
{
    match kind {
        PayloadKind::File => response(output_path, "file", "Decrypted file written to "),
        PayloadKind::DirectoryArchive => response(
            output_path,
            "folder",
            "Decrypted folder restored to ",
        ),
    }
}

/// What a walked folder entry is.
#[derive(Debug, Clone, Copy, PartialEq, Eq, Structural)]
pub enum WalkEntryKind {
    Directory,
    File,
    Symlink,
    Other,
}

/// What archiving does with a walked folder entry.
#[derive(Debug, Clone, Copy, PartialEq, Eq, Structural)]
pub enum ArchiveStep {
    Skip,
    AddDirectory,
    AddFile,
}

/// Decides what archiving a folder does with one of its entries: the folder
/// itself is skipped, links are refused, folders and files are added and
/// anything else is refused.
pub fn archive_entry_step(is_root: bool, kind: WalkEntryKind) -> (r: Result<ArchiveStep, AppError>)
    ensures
        match r {
            Ok(ArchiveStep::Skip) => is_root,
            Ok(ArchiveStep::AddDirectory) => !is_root && kind == WalkEntryKind::Directory,
            Ok(ArchiveStep::AddFile) => !is_root && kind == WalkEntryKind::File,
            Err(AppError::UnsupportedSymlink) => !is_root && kind == WalkEntryKind::Symlink,
            Err(AppError::UnsupportedInputType) => !is_root && kind == WalkEntryKind::Other,
            Err(_) => false,
        },
{
    if is_root {
        return Ok(ArchiveStep::Skip);
    }
    match kind {
        WalkEntryKind::Symlink => Err(AppError::UnsupportedSymlink),
        WalkEntryKind::Directory => Ok(ArchiveStep::AddDirectory),
        WalkEntryKind::File => Ok(ArchiveStep::AddFile),
        WalkEntryKind::Other => Err(AppError::UnsupportedInputType),
    }
}

/// The type of an archive entry.
#[derive(Debug, Clone, Copy, PartialEq, Eq, Structural)]
pub enum TarEntryKind {
    Directory,
    Regular,
    Other,
}

/// What unpacking does with an archive entry.
#[derive(Debug, Clone, Copy, PartialEq, Eq, Structural)]
pub enum UnpackStep {
    CreateDirectory,
    WriteFile,
}

/// Decides what unpacking does with an archive entry: its path must stay
/// inside the output folder; folders are created, regular files written, and
/// anything else is refused.
pub fn unpack_entry_step(relative_path: &str, kind: TarEntryKind) -> (r: Result<UnpackStep, AppError>)
    ensures
        match r {
            Ok(UnpackStep::CreateDirectory) => is_safe_entry_path(relative_path@) && kind
                == TarEntryKind::Directory,
            Ok(UnpackStep::WriteFile) => is_safe_entry_path(relative_path@) && kind
                == TarEntryKind::Regular,
            Err(AppError::UnsafeArchivePath) => !is_safe_entry_path(relative_path@),
            Err(AppError::UnsupportedSymlink) => is_safe_entry_path(relative_path@) && kind
                == TarEntryKind::Other,
            Err(_) => false,
        },
{
    ensure_safe_archive_path(relative_path)?;
    match kind {
        TarEntryKind::Directory => Ok(UnpackStep::CreateDirectory),
        TarEntryKind::Regular => Ok(UnpackStep::WriteFile),
        TarEntryKind::Other => Err(AppError::UnsupportedSymlink),
    }
}

impl AppError {
    /// The message shown to the user.
    pub fn message(&self) -> (r: String)
        ensures
            match self {
                AppError::MissingPassword => r@ == "Enter a password before continuing."@,
                AppError::MissingPath => r@ == "Select a file or folder before continuing."@,
                AppError::PathDoesNotExist => r@ == "The selected path does not exist."@,
                AppError::DecryptRequiresFile => r@
                    == "Decrypt expects an Encryptallinator file, not a folder."@,
                AppError::UnsupportedInputType => r@ == "Only files and folders are supported."@,
                AppError::UnsupportedSymlink => r@
                    == "Folder encryption does not support symbolic links."@,
                AppError::InvalidStoredName => r@
                    == "The encrypted file name or metadata is invalid."@,
                AppError::UnsafeArchivePath => r@
                    == "The encrypted archive contains an unsafe path."@,
                AppError::MissingFileName => r@
                    == "Unable to determine a file or folder name for the selected path."@,
                AppError::Crypto(e) => is_crypto_message(*e, r@),
            },
    {
        match self {
            AppError::MissingPassword => String::from_str("Enter a password before continuing."),
            AppError::MissingPath => String::from_str("Select a file or folder before continuing."),
            AppError::PathDoesNotExist => String::from_str("The selected path does not exist."),
            AppError::DecryptRequiresFile => String::from_str(
                "Decrypt expects an Encryptallinator file, not a folder.",
            ),
            AppError::UnsupportedInputType => String::from_str(
                "Only files and folders are supported.",
            ),
            AppError::UnsupportedSymlink => String::from_str(
                "Folder encryption does not support symbolic links.",
            ),
            AppError::InvalidStoredName => String::from_str(
                "The encrypted file name or metadata is invalid.",
            ),
            AppError::UnsafeArchivePath => String::from_str(
                "The encrypted archive contains an unsafe path.",
            ),
            AppError::MissingFileName => String::from_str(
                "Unable to determine a file or folder name for the selected path.",
            ),
            AppError::Crypto(e) => e.message(),
        }
    }
}

} // verus!
