use sl_studio::models::{
    choose_download_file, download_url, expected_size, find_gguf_file, gguf_file_paths, is_gguf_path, is_model_file,
    repository_api_url, DownloadProgress, HuggingFaceFile,
};

fn file(path: &str, size: Option<u64>, url: Option<&str>) -> HuggingFaceFile {
    HuggingFaceFile { path: path.to_string(), size, download_url: url.map(String::from) }
}

fn listing() -> Vec<HuggingFaceFile> {
    vec![
        file("README.md", None, None),
        file("model.Q4.GGUF", Some(100), Some("u1")),
        file("other.gguf", None, Some("u2")),
    ]
}

#[test]
fn gguf_files_are_found() {
    assert!(is_gguf_path("X.GGUF"));
    assert!(!is_gguf_path("x.gguf.txt"));
    assert_eq!(find_gguf_file(&listing()), Some(("u1".to_string(), 100)));
    assert_eq!(gguf_file_paths(&listing()), vec!["model.Q4.GGUF", "other.gguf"]);
    let no_url = vec![file("a.gguf", Some(5), None), file("b.gguf", Some(6), Some("u"))];
    assert_eq!(find_gguf_file(&no_url), None);
    let no_size = vec![file("a.gguf", None, Some("u"))];
    assert_eq!(find_gguf_file(&no_size), Some(("u".to_string(), 0)));
    assert_eq!(find_gguf_file(&[]), None);
}

#[test]
fn download_file_choice() {
    let files = listing();
    assert_eq!(choose_download_file(&files, &"other.gguf".to_string()), Ok(2));
    assert_eq!(
        choose_download_file(&files, &"missing.gguf".to_string()),
        Err("File not found in repository".to_string())
    );
    assert_eq!(choose_download_file(&files, &"anything".to_string()), Ok(1));
    assert_eq!(choose_download_file(&[], &String::new()), Err("No GGUF files found".to_string()));
}

#[test]
fn addresses() {
    assert_eq!(download_url("org/repo", "m.gguf"), "https://huggingface.co/org/repo/resolve/main/m.gguf");
    assert_eq!(repository_api_url("org/repo"), "https://huggingface.co/api/models/org/repo");
    assert_eq!(expected_size(Some(7), Some(9)), 7);
    assert_eq!(expected_size(None, Some(9)), 9);
    assert_eq!(expected_size(None, None), 0);
}

#[test]
fn download_progress_reports() {
    let s = DownloadProgress::starting("m.gguf".to_string());
    assert_eq!((s.bytes_downloaded, s.total_bytes, s.status.as_str()), (0, 0, "starting"));
    let c = DownloadProgress::chunk_received(10, 5, 100, "m.gguf".to_string());
    assert_eq!((c.bytes_downloaded, c.total_bytes, c.status.as_str()), (15, 100, "downloading"));
    let d = DownloadProgress::complete(100, 100, "m.gguf".to_string());
    assert_eq!(d.status, "complete");
}

#[test]
fn downloaded_models_have_gguf_extension() {
    assert!(is_model_file("m.gguf"));
    assert!(!is_model_file("m.GGUF"));
    assert!(!is_model_file("gguf"));
}
