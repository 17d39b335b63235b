use dubplate::cp437::{cp437_byte, entries_of, undo_cp437, Entry, CP437_HIGH};
use dubplate::naming::{claims_wav, last_path_segment, name_on_the_image, split_name, writable};
use dubplate::options::{volume_label, Device, Format, Profile, Target};
use dubplate::sniff::{classify, Sniff};

#[test]
fn format_wire_names() {
    assert_eq!(Format::Source.wire(), "source");
    assert_eq!(Format::Wav.wire(), "wav");
    assert_eq!(Format::Flac.wire(), "flac");
    assert_eq!(Format::Mp3.wire(), "mp3");
}

#[test]
fn format_labels_and_extensions() {
    assert_eq!(Format::Source.label(), "As supplied");
    assert_eq!(Format::Mp3.label(), "MP3");
    assert_eq!(Format::Source.extension(), None);
    assert_eq!(Format::Flac.extension(), Some("flac"));
    assert!(Format::Flac.detail().starts_with("Lossless and about half the WAV."));
    assert_eq!(Format::ALL, [Format::Source, Format::Wav, Format::Flac, Format::Mp3]);
}

#[test]
fn target_and_profile_labels() {
    assert_eq!(Target::Rekordbox.wire(), "rekordbox");
    assert_eq!(Target::Engine.label(), "Denon");
    assert_eq!(Target::Both.label(), "Both");
    assert!(Target::Engine.detail().contains("schema 2.21.2"));
    assert_eq!(Profile::Krumhansl.label(), "Krumhansl");
    assert_eq!(Profile::Temperley.label(), "Temperley");
}

#[test]
fn device_defaults() {
    let device = Device::default();
    assert_eq!(device.label, "MUSIC");
    assert_eq!(device.playlist, "All tracks");
    assert_eq!(device.date, "2026-01-01");
    assert_eq!(device.target, Target::Both);
    assert!(device.figures);
    assert_eq!(device.format, Format::Source);
}

#[test]
fn rename_replaces_the_last_extension() {
    assert_eq!(Format::Wav.rename("126_05A_Artist-Title.flac"), "126_05A_Artist-Title.wav");
    assert_eq!(Format::Mp3.rename("a.b.flac"), "a.b.mp3");
    assert_eq!(Format::Flac.rename("no extension"), "no extension.flac");
    assert_eq!(Format::Source.rename("kept.aiff"), "kept.aiff");
}

#[test]
fn rename_twice_is_rename_once() {
    let once = Format::Wav.rename("Artist - Title.mp3");
    assert_eq!(Format::Wav.rename(&once), once);
}

#[test]
fn writable_knows_the_five_extensions() {
    for name in ["a.wav", "a.AIFF", "a.aif", "a.Flac", "a.mp3"] {
        assert!(writable(name), "{name}");
    }
    for name in ["a.m4a", "a.ogg", "wav", "a.wav.zip", "a."] {
        assert!(!writable(name), "{name}");
    }
}

#[test]
fn claims_wav_ignores_case() {
    assert!(claims_wav("track.WAV"));
    assert!(claims_wav("x.wav"));
    assert!(!claims_wav("wav"));
    assert!(!claims_wav("x.wave"));
}

#[test]
fn split_name_needs_a_short_tail_and_a_stem() {
    assert_eq!(split_name("song.flac"), ("song", Some("flac")));
    assert_eq!(split_name("Artist - Title Vol. 2"), ("Artist - Title Vol. 2", None));
    assert_eq!(split_name(".flac"), (".flac", None));
    assert_eq!(split_name("song."), ("song.", None));
    assert_eq!(split_name("song.abcde"), ("song.abcde", None));
    // Four characters but more than four bytes.
    assert_eq!(split_name("song.éééé"), ("song.éééé", None));
    assert_eq!(split_name("song.éé"), ("song", Some("éé")));
    assert_eq!(split_name("Take 2. Dub"), ("Take 2. Dub", None));
    assert_eq!(name_on_the_image("Artist - Title Vol. 2", Sniff::Flac), "Artist - Title Vol. 2.flac");
}

#[test]
fn names_follow_the_bytes() {
    // A FLAC a shop zipped under an `.mp3` name goes on the stick as a `.flac`.
    assert_eq!(name_on_the_image("Artist - Title.mp3", Sniff::Flac), "Artist - Title.flac");
    // A download with no extension gets one.
    assert_eq!(name_on_the_image("download", Sniff::Flac), "download.flac");
    // A name that is already right is left alone, `.aif` included.
    assert_eq!(name_on_the_image("Song.AIF", Sniff::Aiff), "Song.AIF");
    assert_eq!(name_on_the_image("Song.aiff", Sniff::Aiff), "Song.aiff");
    // A format no exporter can write keeps whatever name it arrived under.
    assert_eq!(name_on_the_image("clip.mp3", Sniff::Iso), "clip.mp3");
    assert_eq!(name_on_the_image("clip.webm", Sniff::Matroska), "clip.webm");
}

#[test]
fn correcting_twice_is_correcting_once() {
    let once = name_on_the_image("Vol. 2 Mix", Sniff::Mp3);
    assert_eq!(once, "Vol. 2 Mix.mp3");
    assert_eq!(name_on_the_image(&once, Sniff::Mp3), once);
}

#[test]
fn correcting_an_empty_name() {
    // The one input on which correcting twice differs from correcting once.
    let once = name_on_the_image("", Sniff::Wav);
    assert_eq!(once, ".wav");
    assert_eq!(name_on_the_image(&once, Sniff::Wav), ".wav.wav");
}

#[test]
fn display_name_drops_directories() {
    assert_eq!(last_path_segment("Label/Release/01 Track.wav"), "01 Track.wav");
    assert_eq!(last_path_segment("plain.wav"), "plain.wav");
    assert_eq!(last_path_segment("dir/"), "");
}

#[test]
fn sniff_by_magic() {
    assert_eq!(classify(b"PK\x03\x04rest"), Sniff::Zip);
    assert_eq!(classify(b"PK\x05\x06"), Sniff::Zip);
    assert_eq!(classify(b"PK\x07\x08"), Sniff::Zip);
    assert_eq!(classify(b"RIFF\0\0\0\0WAVEfmt "), Sniff::Wav);
    assert_eq!(classify(b"RIFF\0\0\0\0AVI "), Sniff::Unknown);
    assert_eq!(classify(b"FORM\0\0\0\0AIFF"), Sniff::Aiff);
    assert_eq!(classify(b"FORM\0\0\0\0AIFC"), Sniff::Aiff);
    assert_eq!(classify(b"fLaC\0\0\0\x22"), Sniff::Flac);
    assert_eq!(classify(b"ID3\x04"), Sniff::Mp3);
    assert_eq!(classify(&[0xFF, 0xFB, 0x90, 0x00]), Sniff::Mp3);
    assert_eq!(classify(&[0xFF, 0x1F]), Sniff::Unknown);
    assert_eq!(classify(b"OggS\0\x02"), Sniff::Ogg);
    assert_eq!(classify(&[0x1A, 0x45, 0xDF, 0xA3, 0x01]), Sniff::Matroska);
    assert_eq!(classify(b"\0\0\0\x20ftypM4A "), Sniff::Iso);
    assert_eq!(classify(b"Hello, world"), Sniff::Unknown);
    assert_eq!(classify(b""), Sniff::Unknown);
    // A short head is not a match for a longer tag.
    assert_eq!(classify(b"RIFF\0\0\0\0WAV"), Sniff::Unknown);
}

#[test]
fn sniff_preferences() {
    assert!(Sniff::Flac.is_audio());
    assert!(Sniff::Ogg.is_audio());
    assert!(!Sniff::Zip.is_audio());
    assert!(!Sniff::Unknown.is_audio());
    assert_eq!(Sniff::Aiff.preferred(), Some("aiff"));
    assert_eq!(Sniff::Ogg.preferred(), None);
    assert_eq!(Sniff::Aiff.acceptable(), vec![vec!['a', 'i', 'f', 'f'], vec!['a', 'i', 'f']]);
    assert!(Sniff::Iso.acceptable().is_empty());
}

#[test]
fn cp437_mistake_is_undone() {
    assert_eq!(undo_cp437("Beyonc├⌐"), Some("Beyoncé".to_string()));
    // ASCII names have nothing to undo.
    assert_eq!(undo_cp437("Plain Name.mp3"), None);
    // A name genuinely in code page 437 does not decode as UTF-8.
    assert_eq!(undo_cp437("Ça va"), None);
    // A character code page 437 has no byte for.
    assert_eq!(undo_cp437("日本"), None);
}

#[test]
fn cp437_bytes() {
    assert_eq!(cp437_byte('A'), Some(0x41));
    assert_eq!(cp437_byte('Ç'), Some(0x80));
    assert_eq!(cp437_byte('\u{a0}'), Some(0xFF));
    assert_eq!(cp437_byte('€'), None);
    for (at, character) in CP437_HIGH.iter().enumerate() {
        assert_eq!(cp437_byte(*character), Some(0x80 + at as u8));
    }
}

#[test]
fn misreading_every_byte_round_trips() {
    // The UTF-8 of `ñ` is C3 B1, which code page 437 draws as `├▒`.
    let misread: String = "Se\u{251c}\u{2592}or".to_string();
    assert_eq!(undo_cp437(&misread), Some("Señor".to_string()));
}

#[test]
fn entries_of_one_archive_are_repaired() {
    let entries = vec![
        Entry { archive: 0, name: "a/one.wav".into(), file_name: "one.wav".into(), size: 10 },
        Entry {
            archive: 1,
            name: "b/Beyonc├⌐.mp3".into(),
            file_name: "Beyonc├⌐.mp3".into(),
            size: 20,
        },
        Entry { archive: 1, name: "b/two.flac".into(), file_name: "two.flac".into(), size: 30 },
    ];
    let mine = entries_of(entries, 1);
    assert_eq!(mine.len(), 2);
    assert_eq!(mine[0].name, "b/Beyoncé.mp3");
    assert_eq!(mine[0].file_name, "Beyoncé.mp3");
    assert_eq!(mine[0].size, 20);
    assert_eq!(mine[1].name, "b/two.flac");
    assert_eq!(mine[1].archive, 1);
}

#[test]
fn entry_repair_touches_both_names() {
    let mut entry =
        Entry { archive: 3, name: "x/Caf├⌐.wav".into(), file_name: "Caf├⌐.wav".into(), size: 7 };
    entry.repair();
    assert_eq!(entry.name, "x/Café.wav");
    assert_eq!(entry.file_name, "Café.wav");
    assert_eq!(entry.archive, 3);
    assert_eq!(entry.size, 7);
}

#[test]
fn the_default_device_is_recognised_and_any_change_is_not() {
    let device = Device::default();
    assert!(device.is_default());

    let mut renamed = Device::default();
    renamed.label = "GIGS".to_string();
    assert!(!renamed.is_default());

    let mut plainer = Device::default();
    plainer.figures = false;
    assert!(!plainer.is_default());

    let mut flac = Device::default();
    flac.format = Format::Flac;
    assert!(!flac.is_default());

    let mut engine = Device::default();
    engine.target = Target::Engine;
    assert!(!engine.is_default());

    let mut dated = Device::default();
    dated.date = "2026-01-02".to_string();
    assert!(!dated.is_default());

    let mut listed = Device::default();
    listed.playlist = "All track".to_string();
    assert!(!listed.is_default());
}

#[test]
fn volume_labels_are_cut_to_eleven_characters() {
    assert_eq!(volume_label("MUSIC"), "MUSIC");
    assert_eq!(volume_label("ELEVENCHARS"), "ELEVENCHARS");
    assert_eq!(volume_label("TWELVE CHARS"), "TWELVE CHAR");
    assert_eq!(volume_label("ÅÄÖåäöÅÄÖåäöÅ"), "ÅÄÖåäöÅÄÖåä");
    assert_eq!(volume_label(""), "");
}
