use encryptallinator::naming::{
    candidate_path, encrypted_output_path, ensure_safe_archive_path, next_available_path,
    single_component_name, validated_name, PathSearch,
};
use encryptallinator::path::{file_name_of, join_path, parent_of, PathStyle};

const W: PathStyle = PathStyle::Windows;
const U: PathStyle = PathStyle::Unix;
use encryptallinator::workflow::AppError;

#[test]
fn stored_names_must_be_single_path_components() {
    assert!(validated_name("safe.txt").is_ok());
    assert!(validated_name("nested\\unsafe.txt").is_err());
    assert!(validated_name("../unsafe.txt").is_err());
}

#[test]
fn stored_name_edge_cases() {
    assert_eq!(validated_name("report.pdf").unwrap(), "report.pdf");
    assert!(validated_name("").is_err());
    assert!(validated_name("   ").is_err());
    assert!(validated_name("\u{3000}\t").is_err());
    assert!(validated_name(".").is_err());
    assert!(validated_name("..").is_err());
    assert!(validated_name("/etc").is_err());
    assert!(validated_name("C:evil").is_err());
    assert!(validated_name("./a").is_err());
    assert!(validated_name("a/b").is_err());
    assert!(validated_name(" a ").is_ok());
    assert!(validated_name(".hidden").is_ok());
    assert!(validated_name("a/").is_ok());
    assert!(matches!(validated_name("a/b"), Err(AppError::InvalidStoredName)));
}

#[test]
fn archive_paths_must_stay_inside() {
    assert!(ensure_safe_archive_path("nested/note.txt").is_ok());
    assert!(ensure_safe_archive_path("./nested/./note.txt").is_ok());
    assert!(ensure_safe_archive_path("").is_ok());
    assert!(matches!(ensure_safe_archive_path("../x"), Err(AppError::UnsafeArchivePath)));
    assert!(ensure_safe_archive_path("a/../../x").is_err());
    assert!(ensure_safe_archive_path("/abs").is_err());
    assert!(ensure_safe_archive_path("\\abs").is_err());
    assert!(ensure_safe_archive_path("C:x").is_err());
}

#[test]
fn file_names_and_parents() {
    assert_eq!(file_name_of(W, "dir/file.txt").unwrap(), "file.txt");
    assert_eq!(file_name_of(W, "dir\\sub\\").unwrap(), "sub");
    assert_eq!(file_name_of(W, "dir/.").unwrap(), "dir");
    assert!(file_name_of(W, "dir/..").is_none());
    assert!(file_name_of(W, "/").is_none());
    assert!(file_name_of(W, "").is_none());
    assert_eq!(parent_of(W, "dir/file.txt").unwrap(), "dir");
    assert_eq!(parent_of(W, "a//b/./c").unwrap(), "a//b");
    assert_eq!(parent_of(W, "file.txt").unwrap(), "");
    assert_eq!(parent_of(W, "/file.txt").unwrap(), "/");
    assert_eq!(parent_of(W, "./file.txt").unwrap(), ".");
    assert_eq!(parent_of(W, "C:file.txt").unwrap(), "C:");
    assert!(parent_of(W, "/").is_none());
    assert!(parent_of(W, "").is_none());
}

#[test]
fn joining_paths() {
    assert_eq!(join_path(W, "dir", "x"), "dir\\x");
    assert_eq!(join_path(W, "dir/", "x"), "dir/x");
    assert_eq!(join_path(W, "", "x"), "x");
    assert_eq!(join_path(W, "C:", "x"), "C:x");
    assert_eq!(join_path(W, "C:\\dir", "/x"), "C:/x");
    assert_eq!(join_path(W, "dir", "D:x"), "D:x");
}

#[test]
fn single_component_names() {
    assert_eq!(single_component_name(W, "/home/me/notes.txt").unwrap(), "notes.txt");
    assert!(matches!(single_component_name(W, "/"), Err(AppError::MissingFileName)));
    assert!(matches!(single_component_name(W, "dir/  "), Err(AppError::InvalidStoredName)));
}

#[test]
fn encrypted_output_goes_next_to_the_input() {
    assert_eq!(encrypted_output_path(W, "docs/report.pdf").unwrap(), "docs\\report.pdf.encryptallinator");
    assert_eq!(encrypted_output_path(W, "report.pdf").unwrap(), "report.pdf.encryptallinator");
    assert_eq!(encrypted_output_path(W, "/data/vault/").unwrap(), "/data\\vault.encryptallinator");
    assert!(matches!(encrypted_output_path(W, ".."), Err(AppError::MissingFileName)));
}

#[test]
fn candidates_are_numbered_before_the_extension() {
    assert_eq!(candidate_path(W, "docs/report.pdf", 0), "docs/report.pdf");
    assert_eq!(candidate_path(W, "docs/report.pdf", 1), "docs\\report (1).pdf");
    assert_eq!(candidate_path(W, "docs/archive.tar.gz", 12), "docs\\archive.tar (12).gz");
    assert_eq!(candidate_path(W, "docs/vault", 3), "docs\\vault (3)");
    assert_eq!(candidate_path(W, ".bashrc", 2), ".bashrc (2)");
    assert_eq!(candidate_path(W, "name.", 1), "name (1).");
    assert_eq!(candidate_path(W, "/", 1), "encryptallinator (1)");
}

#[test]
fn search_settles_on_the_first_free_candidate() {
    match next_available_path(W, "a.txt", 0, true) {
        PathSearch::Next(i) => assert_eq!(i, 1),
        PathSearch::Found(_) => panic!("taken path chosen"),
    }
    match next_available_path(W, "a.txt", 1, false) {
        PathSearch::Found(p) => assert_eq!(p, "a (1).txt"),
        PathSearch::Next(_) => panic!("free path skipped"),
    }
    match next_available_path(W, "a.txt", 0, false) {
        PathSearch::Found(p) => assert_eq!(p, "a.txt"),
        PathSearch::Next(_) => panic!("free path skipped"),
    }
}

#[test]
fn outputs_are_siblings_of_their_inputs() {
    for input in ["docs/report.pdf", "/data/vault/", "C:notes", "./x.txt", "a//b/./c"] {
        let out = encrypted_output_path(W, input).unwrap();
        assert_eq!(parent_of(W, &out), parent_of(W, input));
        let name = file_name_of(W, input).unwrap();
        assert_eq!(file_name_of(W, &out).unwrap(), format!("{name}.encryptallinator"));
        assert_ne!(out, input);
    }
    for index in [1u32, 2, 10, 123] {
        let candidate = candidate_path(W, "docs/report.pdf", index);
        assert_eq!(parent_of(W, &candidate), parent_of(W, "docs/report.pdf"));
    }
}

#[test]
fn safe_entries_stay_under_the_output_folder() {
    assert!(ensure_safe_archive_path("./a/b").is_ok());
    let joined = join_path(W, "out/vault", "./a/b");
    assert_eq!(joined, "out/vault\\./a/b");
    assert_eq!(parent_of(W, &parent_of(W, &joined).unwrap()).unwrap(), "out/vault");
}

#[test]
fn safe_entries_under_bare_bases() {
    assert_eq!(join_path(W, "", "./a"), "./a");
    assert_eq!(join_path(W, "C:", "a\\b"), "C:a\\b");
    assert_eq!(join_path(W, "/", "a"), "/a");
    assert_eq!(join_path(W, "..", "a"), "..\\a");
    assert_eq!(parent_of(W, "..\\a").unwrap(), "..");
}

#[test]
fn unix_outputs_are_siblings_of_their_inputs() {
    assert_eq!(
        encrypted_output_path(U, "/home/u/secrets.txt").unwrap(),
        "/home/u/secrets.txt.encryptallinator"
    );
    assert_eq!(encrypted_output_path(U, "vault").unwrap(), "vault.encryptallinator");
    assert_eq!(candidate_path(U, "/d/report.txt", 2), "/d/report (2).txt");
    assert_eq!(candidate_path(U, "/d/vault", 1), "/d/vault (1)");
    assert_eq!(candidate_path(U, "/d/a.tar.gz", 1), "/d/a.tar (1).gz");
    match next_available_path(U, "/d/report.txt", 2, false) {
        PathSearch::Found(p) => assert_eq!(p, "/d/report (2).txt"),
        PathSearch::Next(_) => panic!("free path skipped"),
    }
    for input in ["/home/u/secrets.txt", "docs/report.pdf", "./x", "a//b/./c"] {
        let out = encrypted_output_path(U, input).unwrap();
        assert_eq!(parent_of(U, &out), parent_of(U, input));
    }
}

#[test]
fn unix_paths_split_only_on_slash() {
    assert_eq!(file_name_of(U, "dir/a\\b").unwrap(), "a\\b");
    assert_eq!(parent_of(U, "C:x").unwrap(), "");
    assert_eq!(join_path(U, "dir", "x"), "dir/x");
    assert_eq!(join_path(U, "C:", "x"), "C:/x");
    assert!(matches!(single_component_name(U, "dir/a\\b"), Err(AppError::InvalidStoredName)));
    assert!(ensure_safe_archive_path("a\\..\\b").is_err());
}
