use autotype::history::{
    list_recordings, recording_item, recording_timestamp, sort_newest_first, txt_file_name,
    wav_file_name, wav_stem, RecordingEntry, RecordingItem,
};

fn entry(stem: &str, transcript: Option<&str>, created: Option<u64>) -> RecordingEntry {
    RecordingEntry {
        stem: stem.to_string(),
        audio_file: format!("/music/VocoType/{}.wav", stem),
        transcript: transcript.map(|t| t.to_string()),
        created_secs: created,
    }
}

#[test]
fn only_wav_files_are_recordings() {
    assert_eq!(wav_stem("20240101_120000.wav"), Some("20240101_120000".to_string()));
    assert_eq!(wav_stem("a.b.wav"), Some("a.b".to_string()));
    assert_eq!(wav_stem("..wav"), Some(".".to_string()));
    assert_eq!(wav_stem(".wav"), None);
    assert_eq!(wav_stem("x.txt"), None);
    assert_eq!(wav_stem("x.WAV"), None);
    assert_eq!(wav_stem("wav"), None);
    assert_eq!(wav_stem("x.wav.bak"), None);
}

#[test]
fn file_names_of_a_recording() {
    assert_eq!(wav_file_name("20240101_120000"), "20240101_120000.wav");
    assert_eq!(txt_file_name("20240101_120000"), "20240101_120000.txt");
}

#[test]
fn timestamps_are_utc_text() {
    assert_eq!(recording_timestamp(Some(0), "s"), "1970-01-01 00:00:00");
    assert_eq!(recording_timestamp(Some(1431648000), "s"), "2015-05-15 00:00:00");
    assert_eq!(recording_timestamp(Some(1704110400), "s"), "2024-01-01 12:00:00");
    assert_eq!(recording_timestamp(None, "20240101_120000"), "20240101_120000");
}

#[test]
fn timestamps_beyond_i64_wrap_as_the_cast_does() {
    assert_eq!(recording_timestamp(Some(u64::MAX), "s"), "1969-12-31 23:59:59");
}

#[test]
fn unrepresentable_timestamps_show_the_epoch() {
    assert_eq!(recording_timestamp(Some(i64::MAX as u64), "s"), "1970-01-01 00:00:00");
}

#[test]
fn item_of_an_entry() {
    let item = recording_item(entry("20240101_120000", Some("你好"), Some(0)));
    assert_eq!(item.id, "20240101_120000");
    assert_eq!(item.timestamp, "1970-01-01 00:00:00");
    assert_eq!(item.audio_file, "/music/VocoType/20240101_120000.wav");
    assert_eq!(item.text, "你好");
    let item = recording_item(entry("x", None, None));
    assert_eq!(item.text, "[无转录结果]");
    assert_eq!(item.timestamp, "x");
}

#[test]
fn list_is_newest_first() {
    let items = list_recordings(vec![
        entry("20240101_120000", Some("a"), None),
        entry("20240301_090000", None, None),
        entry("20231231_235959", Some("c"), None),
        entry("20240101_120001", Some(""), None),
    ]);
    let ids: Vec<&str> = items.iter().map(|i| i.id.as_str()).collect();
    assert_eq!(ids, vec!["20240301_090000", "20240101_120001", "20240101_120000", "20231231_235959"]);
    assert_eq!(items[0].text, "[无转录结果]");
    assert_eq!(items[1].text, "");
}

#[test]
fn sort_compares_by_code_point() {
    let mk = |id: &str| RecordingItem {
        id: id.to_string(),
        timestamp: String::new(),
        audio_file: String::new(),
        text: String::new(),
    };
    let sorted = sort_newest_first(vec![mk("b"), mk("ab"), mk("录音"), mk("a"), mk("Z")]);
    let ids: Vec<&str> = sorted.iter().map(|i| i.id.as_str()).collect();
    assert_eq!(ids, vec!["录音", "b", "ab", "a", "Z"]);
}

#[test]
fn empty_directory_gives_empty_list() {
    assert!(list_recordings(vec![]).is_empty());
}

#[test]
fn equal_ids_keep_their_order() {
    let mk = |id: &str, text: &str| RecordingItem {
        id: id.to_string(),
        timestamp: String::new(),
        audio_file: String::new(),
        text: text.to_string(),
    };
    let sorted = sort_newest_first(vec![mk("a", "1"), mk("b", "2"), mk("a", "3"), mk("a", "4")]);
    let texts: Vec<&str> = sorted.iter().map(|i| i.text.as_str()).collect();
    assert_eq!(texts, vec!["2", "1", "3", "4"]);
}
