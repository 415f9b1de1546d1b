use supertonic_reader::model_files::file_progress;
use supertonic_reader::model_files::{
    download_incomplete, download_url, initial_progress, is_model_ready, missing_files,
    next_progress, required_file_names, HF_BASE_URL,
};

#[test]
fn all_files_missing_from_empty_directory() {
    let missing = missing_files(&[]);
    assert_eq!(missing.len(), 16);
    assert_eq!(missing[0], "onnx/duration_predictor.onnx");
    assert_eq!(missing[15], "voice_styles/F5.json");
    assert!(!is_model_ready(&[]));
}

#[test]
fn present_files_are_not_missing() {
    let present = vec!["onnx/tts.json".to_string(), "voice_styles/M1.json".to_string(), "extra.bin".to_string()];
    let missing = missing_files(&present);
    assert_eq!(missing.len(), 14);
    assert!(!missing.contains(&"onnx/tts.json".to_string()));
    assert!(!missing.contains(&"voice_styles/M1.json".to_string()));
    assert!(!is_model_ready(&present));
}

#[test]
fn ready_when_everything_is_present() {
    let all: Vec<String> = required_file_names().iter().map(|s| s.to_string()).collect();
    assert!(missing_files(&all).is_empty());
    assert!(is_model_ready(&all));
}

#[test]
fn urls_join_base_and_file() {
    assert_eq!(
        download_url(HF_BASE_URL, "onnx/tts.json"),
        "https://huggingface.co/Supertone/supertonic-3/resolve/main/onnx/tts.json"
    );
}

#[test]
fn start_progress_is_share_of_files_but_at_least_one() {
    assert_eq!(initial_progress(0, 16), 1);
    assert_eq!(initial_progress(8, 16), 50);
    assert_eq!(initial_progress(15, 16), 93);
}

#[test]
fn progress_grows_and_stays_below_hundred() {
    assert_eq!(next_progress(0, 1, 50, 100, 1), Some(50));
    assert_eq!(next_progress(0, 1, 40, 100, 50), None);
    assert_eq!(next_progress(0, 1, 100, 100, 50), Some(99));
    assert_eq!(next_progress(0, 1, 100, 100, 99), None);
    assert_eq!(next_progress(1, 4, 7, 0, 25), Some(37));
    assert_eq!(next_progress(1, 4, 0, 0, 25), None);
}

#[test]
fn incomplete_download_detection() {
    assert!(download_incomplete(5, 10));
    assert!(!download_incomplete(10, 10));
    assert!(!download_incomplete(5, 0));
}

#[test]
fn ten_voice_styles_are_required() {
    let names = required_file_names();
    let styles: Vec<&str> = names.iter().copied().filter(|n| n.starts_with("voice_styles/")).collect();
    assert_eq!(
        styles,
        vec![
            "voice_styles/M1.json", "voice_styles/M2.json", "voice_styles/M3.json", "voice_styles/M4.json",
            "voice_styles/M5.json", "voice_styles/F1.json", "voice_styles/F2.json", "voice_styles/F3.json",
            "voice_styles/F4.json", "voice_styles/F5.json"
        ]
    );
}

#[test]
fn share_of_one_file() {
    assert_eq!(file_progress(25, 200), 12);
    assert_eq!(file_progress(200, 200), 100);
    assert_eq!(file_progress(3, 0), 50);
    assert_eq!(file_progress(0, 0), 0);
}
