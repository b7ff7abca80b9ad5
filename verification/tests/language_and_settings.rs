use roadtoriches::i18n::{Language, Translations};
use roadtoriches::settings::{journal_location, validation_errors, JournalLocation, OsMode};
use roadtoriches::sound::{custom_sound_path, feedback_sound, SoundKind};
use roadtoriches::update::{check_release, update_offer, UpdateCheckError};

#[test]
fn language_names() {
    assert_eq!(Language::German.to_str(), "german");
    assert_eq!(Language::English.to_str(), "english");
    assert_eq!(Language::from_str("english"), Language::English);
    assert_eq!(Language::from_str("English"), Language::English);
    assert_eq!(Language::from_str("Deutsch"), Language::German);
    assert_eq!(Language::from_str("German"), Language::German);
    assert_eq!(Language::from_str("klingon"), Language::German);
    assert_eq!(Language::from_str(Language::English.to_str()), Language::English);
    assert_eq!(Language::German.filename(), "german.json");
    assert_eq!(Language::English.filename(), "english.json");
    assert_eq!(Language::default(), Language::German);
}

#[test]
fn translations_from_file_contents() {
    let t = Translations::load(Some(r#"{"route_tab":"Route","history_tab":"Verlauf","route_tab":"Strecke"}"#));
    assert_eq!(t.get("route_tab"), "Strecke");
    assert_eq!(t.get("history_tab"), "Verlauf");
    assert_eq!(t.get("missing"), "");
    let bad = Translations::load(Some("{not json"));
    assert_eq!(bad.get("route_tab"), "");
    let not_strings = Translations::load(Some(r#"{"a":1}"#));
    assert_eq!(not_strings.get("a"), "");
    let none = Translations::load(None);
    assert_eq!(none.get("route_tab"), "");
}

#[test]
fn os_mode_names() {
    assert_eq!(OsMode::Windows.to_str(), "Windows");
    assert_eq!(OsMode::Linux.to_str(), "Linux");
    assert_eq!(OsMode::Custom.to_str(), "Custom");
    assert_eq!(OsMode::from_str("Custom"), OsMode::Custom);
    assert_eq!(OsMode::from_str("Linux"), OsMode::Linux);
    assert_eq!(OsMode::from_str("Windows"), OsMode::Windows);
    assert_eq!(OsMode::from_str("???"), OsMode::default());
    assert_eq!(OsMode::default_for_separator('\\'), OsMode::Windows);
    assert_eq!(OsMode::default_for_separator('/'), OsMode::Linux);
    let d = OsMode::default();
    assert!(d == OsMode::Windows || d == OsMode::Linux);
    assert_eq!(d, if std::path::MAIN_SEPARATOR == '\\' { OsMode::Windows } else { OsMode::Linux });
}

#[test]
fn journal_locations() {
    match journal_location("/logs", OsMode::Custom) {
        JournalLocation::Manual(d) => assert_eq!(d, "/logs"),
        _ => panic!(),
    }
    match journal_location("/stale", OsMode::Windows) {
        JournalLocation::UnderHome(d) => assert_eq!(d, "Saved Games/Frontier Developments/Elite Dangerous"),
        _ => panic!(),
    }
    match journal_location("", OsMode::Windows) {
        JournalLocation::UnderHome(d) => assert_eq!(d, "Saved Games/Frontier Developments/Elite Dangerous"),
        _ => panic!(),
    }
    match journal_location("/stale", OsMode::Linux) {
        JournalLocation::UnderHome(d) => assert!(d.starts_with(".steam/steam/steamapps/compatdata/359320/")),
        _ => panic!(),
    }
    assert!(matches!(journal_location("", OsMode::Custom), JournalLocation::Unknown));
}

#[test]
fn missing_files_are_reported() {
    assert!(validation_errors("", false, "", false).is_empty());
    assert!(validation_errors("a.csv", true, "s.mp3", true).is_empty());
    assert_eq!(
        validation_errors("a.csv", false, "s.mp3", false),
        vec!["CSV-Datei nicht gefunden: a.csv".to_string(), "Sound-Datei nicht gefunden: s.mp3".to_string()]
    );
    assert_eq!(validation_errors("", false, "s.mp3", false), vec!["Sound-Datei nicht gefunden: s.mp3".to_string()]);
}

#[test]
fn feedback_sounds() {
    assert!(feedback_sound(false, true, "", "").is_none());
    let r = feedback_sound(true, true, "f.wav", "").unwrap();
    assert_eq!(r.kind, SoundKind::Dss);
    assert!(r.custom_path.is_none());
    let r = feedback_sound(true, false, "f.wav", "d.wav").unwrap();
    assert_eq!(r.kind, SoundKind::Fss);
    assert_eq!(r.custom_path.as_deref(), Some("f.wav"));
    assert_eq!(custom_sound_path(""), None);
    assert_eq!(custom_sound_path("x.mp3").as_deref(), Some("x.mp3"));
}

#[test]
fn update_decisions() {
    let r = check_release("1.2.0", "1.2.3".to_string(), Some("notes".to_string()));
    let info = r.ok().unwrap().unwrap();
    assert_eq!(info.version, "1.2.3");
    assert_eq!(info.body, "notes");
    let r = check_release("0.2.0", "1.0.0".to_string(), None);
    assert_eq!(r.ok().unwrap().unwrap().body, "");
    assert!(check_release("1.2.3", "1.2.3".to_string(), None).ok().unwrap().is_none());
    assert!(check_release("1.3.0", "1.2.3".to_string(), None).ok().unwrap().is_none());
    assert!(matches!(check_release("1.2.0", "v-latest".to_string(), None), Err(UpdateCheckError::InvalidVersion)));
    assert!(update_offer(false, "1.0.0".to_string(), None).is_none());
}

#[test]
fn stored_names_read_back() {
    for m in [OsMode::Windows, OsMode::Linux, OsMode::Custom] {
        assert_eq!(OsMode::from_str(m.to_str()), m);
    }
    for l in [Language::German, Language::English] {
        assert_eq!(Language::from_str(l.to_str()), l);
    }
}
