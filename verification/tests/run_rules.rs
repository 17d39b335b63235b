use dubplate::charts::camelot_counts;
use dubplate::cp437::Entry;
use dubplate::options::Format;
use dubplate::permits::Permits;
use dubplate::pool::{answered, least_busy, next_request_id, worker_count};
use dubplate::report::{parse_u32, Finding, Key, Report, Severity, Tempo};
use dubplate::run::{
    row_note, settled, size_estimate, stage_key, standing, Analysed, Estimate, Kind, Phase, Pick, Run,
    Stage, Standing, Track,
};
use dubplate::settings::{available, field_id, offered};
use dubplate::worker::{check_format, request_kind, writable_formats, Inbox, Request};

fn report(camelot: &str) -> Report {
    Report {
        source: dubplate::report::Source { path: "x".into(), sample_rate: 44100, channels: 2 },
        tempo: Tempo { diagnostics: Vec::new() },
        key: Key { camelot: camelot.into(), name: "A minor".into(), diagnostics: Vec::new() },
    }
}

fn finding(code: &str, severity: Severity) -> Finding {
    Finding { code: code.into(), severity, message: format!("{code} said so") }
}

fn measured(run: &mut Run<u32>, index: usize, export: &str) {
    run.finish_measuring(
        index,
        Ok(Analysed {
            report: Ok(report("8A")),
            export_name: Some(export.to_string()),
            report_json: Some("{}".to_string()),
        }),
    );
}

/// A run with one archive of the given exports, all measured.
fn archive(run: &mut Run<u32>, name: &str, exports: &[&str]) -> u32 {
    let entries: Vec<Entry> = exports
        .iter()
        .map(|export| Entry {
            archive: 0,
            name: format!("dir/{export}"),
            file_name: export.to_string(),
            size: 1000,
        })
        .collect();
    let id = run.open_archive(name.to_string(), &entries).unwrap();
    for (at, entry) in entries.iter().enumerate() {
        let slot = run.list_entry(id, entry, at as u32);
        measured(run, slot, exports[at]);
    }
    id
}

#[test]
fn new_run_is_idle_and_empty() {
    let run: Run<u32> = Run::new();
    assert!(matches!(run.phase, Phase::Idle));
    assert!(run.sources.is_empty());
    assert!(run.tracks.is_empty());
    assert_eq!(run.measured(), 0);
    assert_eq!(run.selected(), 0);
    assert_eq!(run.next_source, 0);
}

#[test]
fn earlier_source_wins_a_shared_name() {
    let mut run: Run<u32> = Run::new();
    let first = archive(&mut run, "first.zip", &["a.flac", "b.flac"]);
    let second = archive(&mut run, "second.zip", &["b.flac", "c.flac"]);
    assert_eq!(
        run.standing(),
        vec![Standing::Kept, Standing::Kept, Standing::Duplicate, Standing::Kept]
    );
    assert_eq!(run.selected(), 3);
    assert_eq!(run.measured(), 4);
    assert_eq!(run.count(Pick::One(first)), (2, 2));
    assert_eq!(run.count(Pick::One(second)), (2, 1));
    assert_eq!(Standing::Duplicate.reason(), Some("An earlier source already writes this name"));
    assert_eq!(Standing::Kept.reason(), None);
}

#[test]
fn removing_the_earlier_archive_releases_the_name() {
    let mut run: Run<u32> = Run::new();
    let first = archive(&mut run, "first.zip", &["a.flac", "b.flac"]);
    archive(&mut run, "second.zip", &["b.flac", "c.flac"]);
    run.remove_source(first);
    assert_eq!(run.sources.len(), 1);
    assert_eq!(run.tracks.len(), 2);
    assert!(run.tracks.iter().all(|track| track.source != first));
    assert_eq!(run.standing(), vec![Standing::Kept, Standing::Kept]);
    assert!(run.inspecting.is_none());
}

#[test]
fn removing_the_last_source_goes_back_to_idle() {
    let mut run: Run<u32> = Run::new();
    let only = archive(&mut run, "only.zip", &["a.wav"]);
    run.phase = Phase::Measured;
    run.remove_source(only);
    assert!(run.tracks.is_empty());
    assert!(matches!(run.phase, Phase::Idle));
}

#[test]
fn loose_tracks_are_removed_together() {
    let mut run: Run<u32> = Run::new();
    archive(&mut run, "a.zip", &["x.wav"]);
    let one = run.add_loose("one.mp3".to_string(), 5, 7);
    let two = run.add_loose("two.mp3".to_string(), 6, 8);
    assert_eq!(run.loose(), 2);
    assert!(run.is_loose(run.tracks[one].source));
    assert!(!run.is_loose(run.tracks[0].source));
    assert!(matches!(run.tracks[two].stage, Stage::Waiting));
    assert!(matches!(run.phase, Phase::Analysing));
    assert_eq!(run.count(Pick::Loose), (2, 0));
    run.remove_loose();
    assert_eq!(run.loose(), 0);
    assert_eq!(run.tracks.len(), 1);
    assert_eq!(run.sources.len(), 1);
}

#[test]
fn source_labels() {
    let mut run: Run<u32> = Run::new();
    let zip = archive(&mut run, "Beatport.zip", &["x.wav"]);
    let loose = run.source_label(99);
    assert_eq!(loose, "");
    assert_eq!(run.source_label(zip), "Beatport.zip");
    assert!(!run.labels_differ());
    run.add_loose("one.mp3".to_string(), 5, 7);
    let id = run.tracks[1].source;
    assert_eq!(run.source_label(id), "Added directly");
    assert_eq!(run.sources[1].kind, Kind::Loose);
    assert!(run.labels_differ());
}

#[test]
fn ids_are_never_reused() {
    let mut run: Run<u32> = Run::new();
    let a = run.claim("a.zip".to_string(), Kind::Archive);
    let b = run.claim("b.zip".to_string(), Kind::Archive);
    run.remove_source(b);
    let c = run.claim("c.zip".to_string(), Kind::Archive);
    assert_eq!((a, b, c), (0, 1, 2));
}

#[test]
fn unticking_holds_a_row_off_and_frees_its_name() {
    let mut run: Run<u32> = Run::new();
    archive(&mut run, "first.zip", &["b.flac"]);
    archive(&mut run, "second.zip", &["b.flac"]);
    run.set_included(0, false);
    assert_eq!(run.standing(), vec![Standing::Unticked, Standing::Kept]);
    assert!(!run.all_included());
    run.include_all(true);
    assert!(run.all_included());
    assert_eq!(run.standing(), vec![Standing::Kept, Standing::Duplicate]);
    // An index past the rows changes nothing.
    run.set_included(9, false);
    assert!(run.all_included());
}

#[test]
fn unwritable_and_unmeasured_rows() {
    let mut run: Run<u32> = Run::new();
    archive(&mut run, "video.zip", &["clip.m4a"]);
    let slot = run.add_loose("later.wav".to_string(), 1, 0);
    assert_eq!(run.standing(), vec![Standing::Unwritable, Standing::Unmeasured]);
    assert!(Standing::Unwritable.reason().unwrap().starts_with("Neither database can hold"));
    // Re-encoding to WAV makes the M4A writable.
    run.device.format = Format::Wav;
    assert_eq!(run.standing()[0], Standing::Kept);
    assert_eq!(run.tracks[0].image_name(Format::Wav), Some("clip.wav".to_string()));
    assert_eq!(run.tracks[slot].image_name(Format::Wav), None);
}

#[test]
fn reencoding_can_make_two_names_collide() {
    let mut run: Run<u32> = Run::new();
    archive(&mut run, "a.zip", &["Song.flac", "Song.mp3"]);
    assert_eq!(run.standing(), vec![Standing::Kept, Standing::Kept]);
    run.device.format = Format::Wav;
    assert_eq!(run.standing(), vec![Standing::Kept, Standing::Duplicate]);
}

#[test]
fn standing_free_function_matches_the_run() {
    let mut run: Run<u32> = Run::new();
    archive(&mut run, "a.zip", &["x.wav", "x.wav", "y.aif"]);
    assert_eq!(standing(&run.tracks, Format::Source), run.standing());
}

#[test]
fn a_finished_image_is_revoked_by_any_change() {
    let mut run: Run<u32> = Run::new();
    archive(&mut run, "a.zip", &["x.wav"]);
    run.phase = Phase::Ready { url: "blob:one".to_string(), bytes: 10 };
    run.set_included(0, false);
    assert!(matches!(run.phase, Phase::Measured));
    assert_eq!(run.stale, vec!["blob:one".to_string()]);
    // Nothing more to revoke the second time.
    run.invalidate();
    assert_eq!(run.stale.len(), 1);
    run.phase = Phase::Ready { url: "blob:two".to_string(), bytes: 10 };
    run.claim("b.zip".to_string(), Kind::Archive);
    assert_eq!(run.stale, vec!["blob:one".to_string(), "blob:two".to_string()]);
}

#[test]
fn an_empty_archive_is_refused() {
    let mut run: Run<u32> = Run::new();
    assert_eq!(run.open_archive("empty.zip".to_string(), &Vec::new()), None);
    match &run.phase {
        Phase::Failed(why) => assert_eq!(why, "no WAV, AIFF, FLAC or MP3 files in empty.zip"),
        _ => panic!("not refused"),
    }
    assert!(run.sources.is_empty());
}

#[test]
fn a_file_that_is_neither_is_refused_by_name() {
    let mut run: Run<u32> = Run::new();
    run.refuse("notes.txt");
    match &run.phase {
        Phase::Failed(why) => {
            assert!(why.starts_with("notes.txt is neither a zip nor a track this reads."));
            assert!(why.ends_with("the audio inside an MP4, M4A, WebM or Ogg."));
        }
        _ => panic!("not refused"),
    }
}

#[test]
fn measuring_failures_say_why() {
    let mut run: Run<u32> = Run::new();
    let id = run.open_archive(
        "a.zip".to_string(),
        &vec![Entry { archive: 0, name: "a".into(), file_name: "a".into(), size: 1 }],
    );
    let entry = Entry { archive: 0, name: "a".into(), file_name: "a".into(), size: 1 };
    for _ in 0..4 {
        run.list_entry(id.unwrap(), &entry, 0);
    }
    run.finish_measuring(0, Err("the analysis worker stopped".to_string()));
    run.finish_measuring(
        1,
        Ok(Analysed {
            report: Err("missing field `tempo`".to_string()),
            export_name: Some("a.wav".into()),
            report_json: Some("{}".into()),
        }),
    );
    run.finish_measuring(
        2,
        Ok(Analysed { report: Ok(report("1B")), export_name: None, report_json: Some("{}".into()) }),
    );
    measured(&mut run, 3, "a.wav");
    let why = |index: usize| match &run.tracks[index].stage {
        Stage::Failed(why) => why.clone(),
        _ => String::new(),
    };
    assert_eq!(why(0), "the analysis worker stopped");
    assert_eq!(why(1), "the report could not be read: missing field `tempo`");
    assert_eq!(why(2), "the analyser returned a report with no name");
    assert!(matches!(run.tracks[3].stage, Stage::Done(_)));
    assert_eq!(run.tracks[3].export_name.as_deref(), Some("a.wav"));
    assert_eq!(run.failed(), 3);
    assert_eq!(run.measured(), 1);
    assert_eq!(run.reports().len(), 1);
    // An index past the rows changes nothing.
    run.finish_measuring(40, Err("late".into()));
    assert_eq!(run.failed(), 3);
}

#[test]
fn stage_keys_and_running() {
    assert_eq!(stage_key(&Stage::Waiting), 0);
    assert_eq!(stage_key(&Stage::Extracting), 1);
    assert_eq!(stage_key(&Stage::Measuring), 2);
    assert_eq!(stage_key(&Stage::Done(report("1A"))), 3);
    assert_eq!(stage_key(&Stage::Failed("x".into())), 4);
    assert!(Stage::Measuring.is_running());
    assert!(Stage::Extracting.is_running());
    assert!(!Stage::Waiting.is_running());
}

#[test]
fn track_names_and_sizes() {
    let track = Track {
        source: 0,
        name: "Label/Release/01 Song.flac".to_string(),
        export_name: Some("128_08A_Song.flac".to_string()),
        size: 123,
        stage: Stage::Waiting,
        included: true,
        report_json: None,
        audio: (),
    };
    assert_eq!(track.display_name(), "01 Song.flac");
    assert_eq!(track.image_bytes(Format::Wav), Some(123));
    assert_eq!(track.image_name(Format::Mp3), Some("128_08A_Song.mp3".to_string()));
    let done = Track { stage: Stage::Done(report("8A")), ..track };
    assert_eq!(done.image_bytes(Format::Source), Some(123));
    assert_eq!(done.image_bytes(Format::Flac), None);
}

#[test]
fn settling_after_a_drop() {
    assert!(matches!(settled(&Vec::new()), Phase::Measured));
    match settled(&vec!["one.".to_string()]) {
        Phase::Failed(why) => assert_eq!(why, "one."),
        _ => panic!(),
    }
    match settled(&vec!["one.".to_string(), "two.".to_string(), "three.".to_string()]) {
        Phase::Failed(why) => assert_eq!(why, "one. two. three."),
        _ => panic!(),
    }
}

#[test]
fn building_from_nothing_is_refused() {
    let mut run: Run<u32> = Run::new();
    archive(&mut run, "a.zip", &["x.wav"]);
    run.set_included(0, false);
    assert!(run.begin_build().is_empty());
    match &run.phase {
        Phase::Failed(why) => assert_eq!(why, "no tracks are ticked for the image"),
        _ => panic!(),
    }
}

#[test]
fn building_lists_the_kept_tracks() {
    let mut run: Run<u32> = Run::new();
    archive(&mut run, "first.zip", &["a.flac", "b.flac"]);
    archive(&mut run, "second.zip", &["b.flac", "c.flac"]);
    assert_eq!(run.begin_build(), vec![0, 1, 3]);
    assert!(matches!(run.phase, Phase::Building { gathered: 0, total: 3 }));
}

#[test]
fn the_floor_sets_a_small_image() {
    let estimate = size_estimate(10_000_000, 385_000);
    assert!(estimate.at_minimum);
    assert_eq!(estimate.total, 134_217_728);
    assert_eq!(estimate.audio, 10_000_000);
    assert_eq!(estimate.databases, 385_000);
}

#[test]
fn a_large_image_is_slack_over_payload_in_whole_sectors() {
    let estimate = size_estimate(1_000_000_000, 1_000_000);
    // (1_001_000_000 * 112 / 100) + 64 MiB = 1_121_120_000 + 67_108_864.
    let sized: u64 = 1_121_120_000 + 67_108_864;
    assert!(!estimate.at_minimum);
    assert_eq!(estimate.total, sized.div_ceil(512) * 512);
    assert_eq!(estimate.total % 512, 0);
}

#[test]
fn nothing_kept_is_no_image() {
    assert_eq!(
        size_estimate(0, 5_000_000),
        Estimate { total: 0, audio: 0, databases: 0, at_minimum: false }
    );
}

#[test]
fn run_estimate_counts_only_kept_rows() {
    let mut run: Run<u32> = Run::new();
    archive(&mut run, "first.zip", &["a.flac", "b.flac"]);
    archive(&mut run, "second.zip", &["b.flac"]);
    let estimate = run.estimate(&vec![100_000_000, 200_000_000, 400_000_000], 1000);
    assert_eq!(estimate.audio, 300_000_000);
    assert_eq!(estimate.databases, 386_000);
}

#[test]
fn findings_put_warnings_first() {
    let mut r = report("8A");
    r.tempo.diagnostics = vec![finding("t1", Severity::Info), finding("t2", Severity::Warning)];
    r.key.diagnostics = vec![finding("k1", Severity::Warning), finding("k2", Severity::Info)];
    let codes: Vec<&str> = r.findings().iter().map(|f| f.code.as_str()).collect();
    assert_eq!(codes, vec!["t2", "k1", "t1", "k2"]);
    assert_eq!(r.warnings(), 2);
}

#[test]
fn camelot_numbers() {
    assert_eq!(report("5A").camelot_number(), Some(5));
    assert_eq!(report("12B").camelot_number(), Some(12));
    assert_eq!(report("A").camelot_number(), None);
    assert_eq!(report("").camelot_number(), None);
    assert_eq!(report("x5A").camelot_number(), None);
    assert_eq!(report("5é").camelot_number(), None);
    assert!(report("5A").camelot_is_minor());
    assert!(!report("5B").camelot_is_minor());
    assert!(!report("").camelot_is_minor());
}

#[test]
fn parse_like_the_standard_library() {
    let chars = |s: &str| s.chars().collect::<Vec<char>>();
    for text in ["0", "42", "+7", "007", "4294967295", "4294967296", "", "+", "-1", "1 ", "9x"] {
        assert_eq!(parse_u32(&chars(text)), text.parse::<u32>().ok(), "{text:?}");
    }
}

#[test]
fn the_wheel_counts_each_key() {
    let reports = [report("8A"), report("8A"), report("8B"), report("12A"), report("odd")];
    let refs: Vec<&Report> = reports.iter().collect();
    let counts = camelot_counts(&refs);
    assert_eq!(counts.len(), 12);
    assert_eq!(counts[7], (1, 2));
    assert_eq!(counts[11], (0, 1));
    assert_eq!(counts.iter().map(|(a, b)| a + b).sum::<usize>(), 4);
}

#[test]
fn permits_bound_the_tracks_in_flight() {
    let mut permits = Permits::new(2);
    assert!(permits.drain());
    assert!(permits.take());
    assert!(permits.take());
    assert!(!permits.take());
    assert_eq!(permits.out(), 2);
    assert!(!permits.drain());
    permits.give_back();
    permits.give_back();
    assert!(permits.drain());
    let mut none = Permits::new(0);
    assert!(none.take());
    assert!(!none.take());
}

#[test]
fn worker_counts() {
    assert_eq!(worker_count(0), 1);
    assert_eq!(worker_count(1), 1);
    assert_eq!(worker_count(2), 1);
    assert_eq!(worker_count(4), 3);
    assert_eq!(worker_count(9), 8);
    assert_eq!(worker_count(64), 8);
}

#[test]
fn requests_go_to_the_least_busy_worker() {
    assert_eq!(least_busy(&vec![]), None);
    assert_eq!(least_busy(&vec![2, 1, 1, 3]), Some(1));
    assert_eq!(least_busy(&vec![0, 0]), Some(0));
    assert_eq!(next_request_id(7), 8);
    assert_eq!(next_request_id(u32::MAX), 0);
    assert_eq!(answered(3), 2);
    assert_eq!(answered(0), 0);
}

#[test]
fn the_worker_knows_its_requests() {
    assert_eq!(request_kind("analyze"), Ok(Request::Analyze));
    assert_eq!(request_kind("device-image"), Ok(Request::DeviceImage));
    assert_eq!(request_kind("default-options"), Ok(Request::DefaultOptions));
    assert_eq!(request_kind("archive-extract"), Ok(Request::ArchiveExtract));
    assert_eq!(request_kind("shutdown"), Err("unknown request: shutdown".to_string()));
}

#[test]
fn the_worker_writes_only_what_it_offers() {
    assert_eq!(writable_formats(), vec!["source"]);
    assert_eq!(check_format("source"), Ok(()));
    assert_eq!(
        check_format("wav"),
        Err("this build cannot write wav: the analysis module it links decodes audio and encodes none."
            .to_string())
    );
}

#[test]
fn requests_are_answered_in_the_order_they_came() {
    let mut inbox: Inbox<u32> = Inbox::new();
    assert!(inbox.accept(1));
    assert!(!inbox.accept(2));
    assert_eq!(inbox.next(), Some(1));
    assert!(!inbox.accept(3));
    assert_eq!(inbox.next(), Some(2));
    assert_eq!(inbox.next(), Some(3));
    assert_eq!(inbox.next(), None);
    assert!(!inbox.answering);
    assert!(inbox.accept(4));
}

#[test]
fn the_form_offers_what_the_worker_writes() {
    let formats = vec!["source".to_string()];
    assert!(available(&formats, Format::Source));
    assert!(!available(&formats, Format::Wav));
    assert_eq!(offered(&formats), vec![Format::Source]);
    assert_eq!(offered(&Vec::new()), Vec::<Format>::new());
    let all = vec!["mp3".to_string(), "wav".to_string(), "source".to_string(), "flac".to_string()];
    assert_eq!(offered(&all), vec![Format::Source, Format::Wav, Format::Flac, Format::Mp3]);
}

#[test]
fn field_ids_are_slugs() {
    assert_eq!(field_id("Metrical floor"), "field-metrical-floor");
    assert_eq!(field_id("BPM resolution (x)"), "field-bpm-resolution--x-");
    assert_eq!(field_id("Ünits"), "field--nits");
}

#[test]
fn the_largest_payload_the_arithmetic_holds_is_estimated() {
    let estimate = size_estimate(164_703_072_086_307_425, 385_000);
    assert_eq!(estimate.total, 184_467_440_804_204_544);
    assert_eq!(estimate.audio, 164_703_072_086_307_425);
    assert_eq!(estimate.databases, 385_000);
    assert!(!estimate.at_minimum);
}

#[test]
fn camelot_numbers_off_the_wheel_are_none() {
    assert_eq!(report("13A").camelot_number(), None);
    assert_eq!(report("0A").camelot_number(), None);
    assert_eq!(report("00B").camelot_number(), None);
    assert_eq!(report("1B").camelot_number(), Some(1));
    let reports = [report("0A"), report("13B"), report("1A")];
    let refs: Vec<&Report> = reports.iter().collect();
    let counts = camelot_counts(&refs);
    assert_eq!(counts[0], (0, 1));
    assert_eq!(counts.iter().map(|(a, b)| a + b).sum::<usize>(), 1);
}

#[test]
fn only_measured_rows_reach_the_image() {
    let mut run: Run<u32> = Run::new();
    let entries = vec![
        Entry { archive: 0, name: "a.flac".to_string(), file_name: "a.flac".to_string(), size: 10 },
        Entry { archive: 0, name: "b.flac".to_string(), file_name: "b.flac".to_string(), size: 10 },
    ];
    let id = run.open_archive("one.zip".to_string(), &entries).unwrap();
    run.list_entry(id, &entries[0], 0);
    run.list_entry(id, &entries[1], 1);
    measured(&mut run, 0, "a.flac");
    assert_eq!(run.standing(), vec![Standing::Kept, Standing::Unmeasured]);
    assert!(matches!(run.tracks[0].stage, Stage::Done(_)));
    assert_eq!(run.selected(), 1);
    assert_eq!(run.measured(), 1);
}

#[test]
fn the_line_under_a_row_says_what_matters_most() {
    assert_eq!(
        row_note(&Stage::Failed("torn".to_string()), Standing::Unmeasured, "a.flac"),
        ("torn".to_string(), true)
    );
    assert_eq!(
        row_note(&Stage::Done(report("8A")), Standing::Duplicate, "a.flac"),
        ("An earlier source already writes this name".to_string(), true)
    );
    assert_eq!(
        row_note(&Stage::Done(report("8A")), Standing::Kept, "a.flac"),
        ("a.flac".to_string(), false)
    );
    assert_eq!(row_note(&Stage::Waiting, Standing::Unmeasured, "a"), ("Waiting".to_string(), false));
    assert_eq!(
        row_note(&Stage::Extracting, Standing::Unmeasured, "a"),
        ("Unpacking".to_string(), false)
    );
    assert_eq!(
        row_note(&Stage::Measuring, Standing::Unmeasured, "a"),
        ("Measuring".to_string(), false)
    );
    assert_eq!(
        row_note(&Stage::Failed(String::new()), Standing::Unmeasured, "a"),
        ("\u{a0}".to_string(), true)
    );
}
