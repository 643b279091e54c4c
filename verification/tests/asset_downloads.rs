use hellcall_core::download_flow::{
    download_step, progress_report_of, DownloadAction, DownloadEvent, DownloadStage,
};
use hellcall_core::assets::{
    archive_extension, archive_file_name, archive_parent_missing_message, archive_path_error_message,
    check_download_request, check_vision_download_request, download_request_error_message,
    extract_root_missing_message, extracted_folder_missing_message, failure_cleanup, is_archive_asset, is_recognized_download_url,
    may_use_hf_mirror, missing_model_file_message, model_not_downloaded_message,
    normalize_archive_relative_path, path_contains_non_ascii, resolve_download_url,
    sanitize_model_id_for_link_name, selected_model_id, split_lines, stt_model_definitions,
    to_huggingface_mirror_url, trace_says_mainland_china, tts_model_definitions, tts_rule_fst_names,
    vision_model_definition, vision_model_selection, vosk_model_definitions, ArchivePathError,
    AssetType, AvailableSherpaModel, AvailableVisionModel, AvailableVoskModel, DownloadProgress,
    DownloadRequestError, FailureCleanup, PathPart,
};

const CN_SMALL: &str = "https://huggingface.co/Derur/vosk-models/resolve/main/stt/cn/vosk-model-small-cn-0.22.7z";

#[test]
fn archive_types() {
    assert_eq!(archive_extension(AssetType::ZipArchive), Some("zip"));
    assert_eq!(archive_extension(AssetType::SevenZipArchive), Some("7z"));
    assert_eq!(archive_extension(AssetType::TarBz2Archive), Some("tar.bz2"));
    assert_eq!(archive_extension(AssetType::RawFile), None);
    assert!(is_archive_asset(AssetType::TarBz2Archive));
    assert!(!is_archive_asset(AssetType::RawFile));
    assert_eq!(archive_file_name("model", "tar.bz2"), "model.tar.bz2");
    assert_eq!(
        archive_parent_missing_message("m"),
        "Archive target path for 'm' must have a parent directory."
    );
    assert_eq!(
        extract_root_missing_message(AssetType::SevenZipArchive),
        "7z archive target path must have a parent directory."
    );
}

#[test]
fn cleanup_after_failed_download() {
    assert_eq!(failure_cleanup(AssetType::ZipArchive, true), FailureCleanup::KeepTarget);
    assert_eq!(failure_cleanup(AssetType::RawFile, true), FailureCleanup::KeepTarget);
    assert_eq!(failure_cleanup(AssetType::RawFile, false), FailureCleanup::RemoveTargetFile);
    assert_eq!(failure_cleanup(AssetType::SevenZipArchive, false), FailureCleanup::RemoveTargetDir);
}

#[test]
fn hugging_face_mirror() {
    assert_eq!(
        to_huggingface_mirror_url("https://huggingface.co/a/b.onnx"),
        Some("https://hf-mirror.com/a/b.onnx".to_string())
    );
    assert_eq!(to_huggingface_mirror_url("https://github.com/a"), None);
    assert_eq!(to_huggingface_mirror_url("http://huggingface.co/a"), None);
    assert_eq!(resolve_download_url("https://huggingface.co/x", true), "https://hf-mirror.com/x");
    assert_eq!(resolve_download_url("https://huggingface.co/x", false), "https://huggingface.co/x");
    assert_eq!(resolve_download_url("https://github.com/x", true), "https://github.com/x");
    assert!(may_use_hf_mirror("https://huggingface.co/x"));
    assert!(!may_use_hf_mirror("https://github.com/x"));
}

#[test]
fn official_address_and_its_mirror_are_recognized() {
    let official = "https://huggingface.co/a/b.onnx";
    assert!(is_recognized_download_url(official, official));
    assert!(is_recognized_download_url("  https://huggingface.co/a/b.onnx\n", official));
    assert!(is_recognized_download_url("https://hf-mirror.com/a/b.onnx", official));
    assert!(!is_recognized_download_url("https://evil.test/b.onnx", official));
    assert!(!is_recognized_download_url("https://hf-mirror.com/x", "https://github.com/x"));
}

#[test]
fn mainland_china_trace() {
    assert!(trace_says_mainland_china("fl=1\nip=1.2.3.4\nloc=CN\n"));
    assert!(trace_says_mainland_china("loc=cn\r\nloc=US"));
    assert!(!trace_says_mainland_china("ip=1\nloc=HK\n"));
    assert!(!trace_says_mainland_china("nothing here"));
    assert!(!trace_says_mainland_china(""));
    assert!(!trace_says_mainland_china("location=CN\nloc=JP"));
}

#[test]
fn lines_are_split_like_str_lines() {
    let chars: Vec<char> = "a\r\nb\n\nc".chars().collect();
    let lines = split_lines(&chars);
    assert_eq!(lines, vec![vec!['a'], vec!['b'], vec![], vec!['c']]);
    let trailing: Vec<char> = "x\n".chars().collect();
    assert_eq!(split_lines(&trailing), vec![vec!['x']]);
}

#[test]
fn progress_is_reported_when_it_changes() {
    let mut p = DownloadProgress::new();
    assert_eq!(p.record(10, Some(200)), Some(5));
    assert_eq!(p.record(1, Some(200)), None);
    assert_eq!(p.downloaded, 11);
    assert_eq!(p.record(189, Some(200)), Some(100));
    assert_eq!(p.record(100, Some(200)), None);
    assert_eq!(p.record(5, None), None);
    assert_eq!(p.record(5, Some(0)), None);
    assert_eq!(p.downloaded, 310);
    assert_eq!(p.last_progress, 100);
}

#[test]
fn progress_saturates_on_huge_counts() {
    let mut p = DownloadProgress::new();
    assert_eq!(p.record(u64::MAX / 50, Some(u64::MAX)), Some(1));
}

#[test]
fn archive_entry_paths() {
    let ok = vec![PathPart::CurDir, PathPart::Normal("a".to_string()), PathPart::Normal("b.txt".to_string())];
    assert_eq!(normalize_archive_relative_path(&ok), Ok(vec!["a".to_string(), "b.txt".to_string()]));
    let up = vec![PathPart::Normal("a".to_string()), PathPart::ParentDir];
    assert_eq!(normalize_archive_relative_path(&up), Err(ArchivePathError::Invalid));
    assert_eq!(normalize_archive_relative_path(&vec![PathPart::RootDir]), Err(ArchivePathError::Invalid));
    assert_eq!(normalize_archive_relative_path(&vec![PathPart::Prefix]), Err(ArchivePathError::Invalid));
    assert_eq!(normalize_archive_relative_path(&vec![PathPart::CurDir]), Err(ArchivePathError::Empty));
    assert_eq!(normalize_archive_relative_path(&vec![]), Err(ArchivePathError::Empty));
    assert_eq!(
        archive_path_error_message(ArchivePathError::Invalid, "../x"),
        "Refusing to extract archive entry with invalid path '../x'."
    );
    assert_eq!(
        archive_path_error_message(ArchivePathError::Empty, ""),
        "Refusing to extract archive entry with an empty path."
    );
}

#[test]
fn official_model_lists() {
    let vosk = vosk_model_definitions();
    assert_eq!(vosk.len(), 33);
    assert_eq!(vosk[2].id, "vosk-model-small-cn-0.22");
    assert_eq!(vosk[2].url, CN_SMALL);
    assert_eq!(stt_model_definitions()[0].id, "sherpa-onnx-sense-voice-zh-en-ja-ko-yue-int8-2024-07-17");
    assert_eq!(tts_model_definitions()[0].id, "vits-melo-tts-zh_en");
    assert_eq!(vision_model_definition().id, "helldivers2-console-command-arrow-yolo-v8n");
    assert_eq!(tts_rule_fst_names(), vec!["number.fst", "phone.fst", "date.fst", "new_heteronym.fst"]);
}

#[test]
fn download_requests_are_checked_against_the_list() {
    let defs = vosk_model_definitions();
    assert_eq!(check_download_request(&defs, "vosk-model-small-cn-0.22", ""), Ok(CN_SMALL));
    assert_eq!(check_download_request(&defs, "vosk-model-small-cn-0.22", CN_SMALL), Ok(CN_SMALL));
    let mirror = CN_SMALL.replace("https://huggingface.co/", "https://hf-mirror.com/");
    assert_eq!(check_download_request(&defs, "vosk-model-small-cn-0.22", &mirror), Ok(CN_SMALL));
    assert_eq!(
        check_download_request(&defs, "vosk-model-small-cn-0.22", "https://evil.test/x.7z"),
        Err(DownloadRequestError::UrlMismatch)
    );
    assert_eq!(check_download_request(&defs, "nope", ""), Err(DownloadRequestError::UnknownModel));
    assert_eq!(
        download_request_error_message(DownloadRequestError::UnknownModel, "Vosk", "nope"),
        "Unknown Vosk model 'nope'."
    );
    assert_eq!(
        download_request_error_message(DownloadRequestError::UrlMismatch, "Vosk", "m"),
        "Download URL for 'm' does not match the official model list."
    );
}

#[test]
fn vision_requests_and_selection() {
    let url = vision_model_definition().url;
    assert_eq!(check_vision_download_request("helldivers2-console-command-arrow-yolo-v8n", " "), Ok(url));
    assert_eq!(check_vision_download_request("helldivers2-console-command-arrow-yolo-v8n", url), Ok(url));
    assert_eq!(
        check_vision_download_request("helldivers2-console-command-arrow-yolo-v8n", "https://hf-mirror.com/x"),
        Err(DownloadRequestError::UrlMismatch)
    );
    assert_eq!(check_vision_download_request("other", ""), Err(DownloadRequestError::UnknownModel));
    assert_eq!(vision_model_selection("  "), Ok(false));
    assert_eq!(vision_model_selection(" helldivers2-console-command-arrow-yolo-v8n "), Ok(true));
    assert_eq!(vision_model_selection(" x "), Err("Unknown vision model 'x'.".to_string()));
}

#[test]
fn model_selection_and_messages() {
    assert_eq!(selected_model_id("  "), None);
    assert_eq!(selected_model_id(" m1 "), Some("m1".to_string()));
    assert_eq!(
        model_not_downloaded_message("Vosk", "m1"),
        "Vosk model 'm1' is not downloaded. Please download it first."
    );
    assert_eq!(
        missing_model_file_message("Model", "C:/m/model.onnx"),
        "Model is missing at 'C:/m/model.onnx'. Please re-download the selected sherpa model."
    );
}

#[test]
fn link_names_and_non_ascii_paths() {
    assert_eq!(sanitize_model_id_for_link_name(" vits melo/tts ", "model"), "vits-melo-tts");
    assert_eq!(sanitize_model_id_for_link_name("--a.b_c--", "model"), "a.b_c");
    assert_eq!(sanitize_model_id_for_link_name("模型", "model"), "model");
    assert!(path_contains_non_ascii("C:/用户/x"));
    assert!(!path_contains_non_ascii("C:/Users/x"));
}

#[test]
fn available_model_entries() {
    let d = vision_model_definition();
    let v = AvailableVisionModel::of(&d, true);
    assert_eq!(v.id, d.id);
    assert!(v.is_downloaded);
    let s = AvailableSherpaModel::of(&tts_model_definitions()[0], false);
    assert_eq!(s.url, "https://github.com/k2-fsa/sherpa-onnx/releases/download/tts-models/vits-melo-tts-zh_en.tar.bz2");
    assert!(!s.is_downloaded);
    let k = AvailableVoskModel::of(&vosk_model_definitions()[0], false);
    assert_eq!(k.id, "vosk-model-small-ar-tn-0.1-linto");
}

#[test]
fn reported_progress_never_goes_down() {
    let mut p = DownloadProgress::new();
    let mut last = 0u8;
    for chunk in [1u64, 7, 0, 13, 50, 2, 99, 1000] {
        if let Some(v) = p.record(chunk, Some(997)) {
            assert!(v >= last);
            last = v;
        }
    }
    assert_eq!(last, 100);
}

#[test]
fn official_addresses_and_their_mirrors_are_accepted() {
    for def in vosk_model_definitions().iter().chain(stt_model_definitions().iter()) {
        assert!(is_recognized_download_url(def.url, def.url));
        if let Some(m) = to_huggingface_mirror_url(def.url) {
            assert!(is_recognized_download_url(&m, def.url));
        }
    }
    assert!(is_recognized_download_url("https://hf-mirror.com/", "https://huggingface.co/"));
}

#[test]
fn extraction_message() {
    assert_eq!(
        extracted_folder_missing_message("vosk-model-small-cn-0.22"),
        "Asset 'vosk-model-small-cn-0.22' was extracted, but the expected folder was not created."
    );
}

#[test]
fn an_archive_download_runs_to_completion() {
    let (s, a) = download_step(DownloadStage::Start, DownloadEvent::Begin, true, "m");
    assert!(matches!(a, DownloadAction::CheckTarget));
    let (s, a) = download_step(s, DownloadEvent::Checked { present: false, stale_archive: true }, true, "m");
    assert!(matches!(a, DownloadAction::ClearArchive));
    assert_eq!(progress_report_of(&a), None);
    let (s, a) = download_step(s, DownloadEvent::Cleared, true, "m");
    assert!(matches!(a, DownloadAction::Download));
    assert_eq!(progress_report_of(&a), Some((0, "Downloading...".to_string())));
    let (s, a) = download_step(s, DownloadEvent::Downloaded, true, "m");
    assert_eq!(progress_report_of(&a), Some((100, "Extracting...".to_string())));
    let (s, a) = download_step(s, DownloadEvent::Extracted, true, "m");
    assert!(matches!(a, DownloadAction::CheckFolder));
    let (s, a) = download_step(s, DownloadEvent::FolderChecked(true), true, "m");
    assert!(matches!(a, DownloadAction::RemoveArchive));
    let (s, a) = download_step(s, DownloadEvent::Removed, true, "m");
    assert_eq!(s, DownloadStage::Done);
    assert_eq!(progress_report_of(&a), Some((100, "Complete".to_string())));
}

#[test]
fn downloads_fail_on_a_missing_folder_or_a_failed_step() {
    let (_, a) = download_step(DownloadStage::CheckingFolder, DownloadEvent::FolderChecked(false), true, "vosk");
    assert!(matches!(a, DownloadAction::Fail(ref m) if m == "Asset 'vosk' was extracted, but the expected folder was not created."));
    let (s, a) = download_step(DownloadStage::Downloading, DownloadEvent::StepFailed("boom".to_string()), false, "x");
    assert_eq!(s, DownloadStage::Done);
    assert_eq!(progress_report_of(&a), Some((0, "Failed: boom".to_string())));
    let (_, a) = download_step(DownloadStage::Checking, DownloadEvent::Checked { present: true, stale_archive: true }, true, "x");
    assert!(matches!(a, DownloadAction::Complete));
    let (_, a) = download_step(DownloadStage::Checking, DownloadEvent::Checked { present: false, stale_archive: true }, false, "x");
    assert!(matches!(a, DownloadAction::Download));
    let (_, a) = download_step(DownloadStage::Downloading, DownloadEvent::Downloaded, false, "x");
    assert!(matches!(a, DownloadAction::Complete));
    let (s, a) = download_step(DownloadStage::Done, DownloadEvent::Begin, false, "x");
    assert_eq!(s, DownloadStage::Done);
    assert!(matches!(a, DownloadAction::Wait));
}
