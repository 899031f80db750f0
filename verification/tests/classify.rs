use evidence_store::models::{EvidenceTab, EvidenceType};

#[test]
fn image_extensions_map_to_image() {
    for ext in ["jpg", "jpeg", "png", "gif", "bmp", "tiff", "webp"] {
        assert_eq!(EvidenceType::from_extension(ext), Some(EvidenceType::Image));
    }
}

#[test]
fn audio_extensions_map_to_audio() {
    for ext in ["mp3", "wav", "flac", "aac", "ogg", "m4a"] {
        assert_eq!(EvidenceType::from_extension(ext), Some(EvidenceType::Audio));
    }
}

#[test]
fn video_extensions_map_to_video() {
    for ext in ["mp4", "avi", "mov", "wmv", "flv", "webm", "mkv"] {
        assert_eq!(EvidenceType::from_extension(ext), Some(EvidenceType::Video));
    }
}

#[test]
fn document_extensions_map_to_document() {
    for ext in ["pdf", "doc", "docx", "txt", "rtf"] {
        assert_eq!(EvidenceType::from_extension(ext), Some(EvidenceType::Document));
    }
}

#[test]
fn classification_ignores_case() {
    assert_eq!(EvidenceType::from_extension("JPG"), Some(EvidenceType::Image));
    assert_eq!(EvidenceType::from_extension("Mp3"), Some(EvidenceType::Audio));
    assert_eq!(EvidenceType::from_extension("WebM"), Some(EvidenceType::Video));
    assert_eq!(EvidenceType::from_extension("PDF"), Some(EvidenceType::Document));
}

#[test]
fn unmapped_extensions_are_unsupported() {
    assert_eq!(EvidenceType::from_extension("exe"), None);
    assert_eq!(EvidenceType::from_extension(""), None);
    assert_eq!(EvidenceType::from_extension("jpg2"), None);
    assert_eq!(EvidenceType::from_extension("quote"), None);
}

#[test]
fn folder_names_are_canonical() {
    assert_eq!(EvidenceType::Image.folder_name(), "images");
    assert_eq!(EvidenceType::Audio.folder_name(), "audio");
    assert_eq!(EvidenceType::Video.folder_name(), "videos");
    assert_eq!(EvidenceType::Document.folder_name(), "documents");
    assert_eq!(EvidenceType::Quote.folder_name(), "quotes");
}

#[test]
fn category_names_parse() {
    assert_eq!(EvidenceType::from_str("image"), Some(EvidenceType::Image));
    assert_eq!(EvidenceType::from_str("audio"), Some(EvidenceType::Audio));
    assert_eq!(EvidenceType::from_str("video"), Some(EvidenceType::Video));
    assert_eq!(EvidenceType::from_str("document"), Some(EvidenceType::Document));
    assert_eq!(EvidenceType::from_str("quote"), Some(EvidenceType::Quote));
    assert_eq!(EvidenceType::from_str("sticker"), None);
}

#[test]
fn all_categories_in_order() {
    let all = EvidenceType::all();
    assert_eq!(
        all,
        vec![
            EvidenceType::Image,
            EvidenceType::Audio,
            EvidenceType::Video,
            EvidenceType::Document,
            EvidenceType::Quote,
        ]
    );
}

#[test]
fn tabs_and_labels() {
    let tabs = EvidenceTab::all();
    assert_eq!(tabs.len(), 6);
    assert_eq!(tabs[0], EvidenceTab::Information);
    assert_eq!(EvidenceTab::Information.label(), "Information");
    assert_eq!(EvidenceTab::Quotes.label(), "Quotes");
    assert_eq!(EvidenceTab::Audio.label(), "Audio");
}
