use encryptallinator::crypto::CryptoError;
use encryptallinator::path::PathStyle;
use encryptallinator::payload::{Payload, PayloadKind};

const W: PathStyle = PathStyle::Windows;
use encryptallinator::workflow::{
    archive_entry_step, decrypted_response, decrypted_target, encrypted_response, plan_encryption,
    process_item_impl, unpack_entry_step, AppError, ArchiveStep, InputKind, OperationMode,
    ProcessRequest, TarEntryKind, UnpackStep, WalkEntryKind,
};

fn request(path: &str, password: &str, mode: OperationMode) -> ProcessRequest {
    ProcessRequest { path: path.to_string(), password: password.to_string(), mode }
}

#[test]
fn requests_are_checked_in_order() {
    assert!(matches!(
        process_item_impl(&request("", "", OperationMode::Encrypt), false, false),
        Err(AppError::MissingPassword)
    ));
    assert!(matches!(
        process_item_impl(&request("", "pw", OperationMode::Encrypt), false, false),
        Err(AppError::MissingPath)
    ));
    assert!(matches!(
        process_item_impl(&request("x", "pw", OperationMode::Decrypt), false, false),
        Err(AppError::PathDoesNotExist)
    ));
    assert!(matches!(
        process_item_impl(&request("x", "pw", OperationMode::Decrypt), true, false),
        Err(AppError::DecryptRequiresFile)
    ));
    assert!(matches!(
        process_item_impl(&request("x", "pw", OperationMode::Encrypt), true, false),
        Ok(OperationMode::Encrypt)
    ));
    assert!(matches!(
        process_item_impl(&request("x", "pw", OperationMode::Decrypt), true, true),
        Ok(OperationMode::Decrypt)
    ));
}

#[test]
fn encryption_plans() {
    let plan = plan_encryption(W, "a/b.txt", InputKind::File).unwrap();
    assert_eq!(plan.kind, PayloadKind::File);
    assert_eq!(plan.original_name, "b.txt");
    let plan = plan_encryption(W, "a/folder", InputKind::Directory).unwrap();
    assert_eq!(plan.kind, PayloadKind::DirectoryArchive);
    assert_eq!(plan.original_name, "folder");
    assert!(matches!(plan_encryption(W, "a/b", InputKind::Other), Err(AppError::UnsupportedInputType)));
    assert!(matches!(plan_encryption(W, "/", InputKind::Directory), Err(AppError::MissingFileName)));
}

#[test]
fn decryption_targets() {
    let payload = Payload { kind: PayloadKind::File, original_name: "b.txt".to_string(), data: vec![] };
    assert_eq!(decrypted_target(W, "dir/b.txt.encryptallinator", &payload).unwrap(), "dir\\b.txt");
    let evil = Payload { kind: PayloadKind::File, original_name: "../b.txt".to_string(), data: vec![] };
    assert!(matches!(decrypted_target(W, "dir/x", &evil), Err(AppError::InvalidStoredName)));
}

#[test]
fn responses_name_the_output() {
    let r = encrypted_response("dir/x.encryptallinator");
    assert_eq!(r.output_path, "dir/x.encryptallinator");
    assert_eq!(r.output_kind, "file");
    assert_eq!(r.message, "Encrypted item written to dir/x.encryptallinator.");
    let r = decrypted_response("dir/x", PayloadKind::File);
    assert_eq!(r.output_kind, "file");
    assert_eq!(r.message, "Decrypted file written to dir/x.");
    let r = decrypted_response("dir/v", PayloadKind::DirectoryArchive);
    assert_eq!(r.output_kind, "folder");
    assert_eq!(r.message, "Decrypted folder restored to dir/v.");
}

#[test]
fn archive_and_unpack_steps() {
    assert_eq!(archive_entry_step(true, WalkEntryKind::Directory).unwrap(), ArchiveStep::Skip);
    assert_eq!(archive_entry_step(false, WalkEntryKind::Directory).unwrap(), ArchiveStep::AddDirectory);
    assert_eq!(archive_entry_step(false, WalkEntryKind::File).unwrap(), ArchiveStep::AddFile);
    assert!(matches!(archive_entry_step(false, WalkEntryKind::Symlink), Err(AppError::UnsupportedSymlink)));
    assert!(matches!(archive_entry_step(false, WalkEntryKind::Other), Err(AppError::UnsupportedInputType)));
    assert_eq!(unpack_entry_step("a/b", TarEntryKind::Directory).unwrap(), UnpackStep::CreateDirectory);
    assert_eq!(unpack_entry_step("a/b", TarEntryKind::Regular).unwrap(), UnpackStep::WriteFile);
    assert!(matches!(unpack_entry_step("a/b", TarEntryKind::Other), Err(AppError::UnsupportedSymlink)));
    assert!(matches!(unpack_entry_step("../b", TarEntryKind::Regular), Err(AppError::UnsafeArchivePath)));
}

#[test]
fn error_messages() {
    assert_eq!(AppError::MissingPassword.message(), "Enter a password before continuing.");
    assert_eq!(AppError::UnsafeArchivePath.message(), "The encrypted archive contains an unsafe path.");
    assert_eq!(
        AppError::Crypto(CryptoError::KeyDerivation).message(),
        "Password key derivation failed."
    );
}

#[test]
fn restored_outputs_are_siblings_of_the_sealed_file() {
    let payload = Payload { kind: PayloadKind::DirectoryArchive, original_name: "vault/".to_string(), data: vec![] };
    let input = "backups/vault.encryptallinator";
    let out = decrypted_target(W, input, &payload).unwrap();
    assert_eq!(out, "backups\\vault/");
    assert_eq!(
        encryptallinator::path::parent_of(W, &out),
        encryptallinator::path::parent_of(W, input)
    );
    assert_eq!(encryptallinator::path::file_name_of(W, &out).unwrap(), "vault");
}

#[test]
fn unix_restores_next_to_the_sealed_file() {
    let payload = Payload { kind: PayloadKind::File, original_name: "b.txt".to_string(), data: vec![] };
    let out = decrypted_target(PathStyle::Unix, "dir/b.txt.encryptallinator", &payload).unwrap();
    assert_eq!(out, "dir/b.txt");
}
