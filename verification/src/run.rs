//! Any number of archives and loose tracks, from dropped to downloadable.
//!
//! The whole of the application's behaviour is here as state and the rules
//! that move it: what was dropped, where each track stands with respect to the
//! image, and what the image will come to. The page performs the work these
//! rules ask for (reading files, talking to the workers, building the image)
//! and hands back what came of it.
//!
//! Nothing here holds audio. A track carries whatever the page attaches to it,
//! which is the file its audio is in and the figures drawn from it; the rules
//! never look inside.

use crate::cp437::Entry;
use crate::naming::{is_writable, last_path_segment, last_segment, writable};
use crate::options::{renamed, Device, Format};
use crate::report::Report;
use crate::text::{chars_of, eq_chars, push_char};
use vstd::prelude::*;

verus! {

/// What was dropped.
#[derive(Clone, Copy, Debug, PartialEq, Eq, Structural)]
pub enum Kind {
    /// A zip, listed and extracted through the worker.
    Archive,
    /// One track, dropped on its own. Nothing lists it and nothing extracts it:
    /// the file is the audio.
    Loose,
}

/// One dropped file, archive or track.
#[derive(Clone, Debug)]
pub struct Source {
    /// Stable across removals, which is what the tracks refer to.
    pub id: u32,
    pub name: String,
    pub kind: Kind,
}

/// What the tracks table calls a source.
pub open spec fn label_of(source: Source) -> Seq<char> {
    match source.kind {
        Kind::Archive => source.name@,
        Kind::Loose => "Added directly"@,
    }
}

impl Source {
    /// What the tracks table calls this source.
    ///
    /// A loose track's file name is already the row's name, so repeating it in
    /// the archive column says nothing. Every loose track answers the same way
    /// instead, which is the fact the column is there to carry.
    pub fn label(&self) -> (r: String)
        ensures
            r@ == label_of(*self),
    {
        match self.kind {
            Kind::Archive => self.name.clone(),
            Kind::Loose => String::from_str("Added directly"),
        }
    }
}

/// Where a single track is in the run.
#[derive(Clone, Debug)]
pub enum Stage {
    Waiting,
    Extracting,
    Measuring,
    /// Measured, with the report of measuring it.
    Done(Report),
    /// A track that could not be measured, and why. One failure is one track:
    /// an archive is not abandoned because a shop shipped a torn MP3 in it.
    Failed(String),
}

impl Stage {
    /// Whether the track is being worked on right now.
    pub fn is_running(&self) -> (r: bool)
        ensures
            r == (*self is Extracting || *self is Measuring),
    {
        matches!(self, Stage::Extracting | Stage::Measuring)
    }
}

/// A key that changes exactly when a row's appearance should.
pub fn stage_key(stage: &Stage) -> (r: u8)
    ensures
        r == (match *stage {
            Stage::Waiting => 0u8,
            Stage::Extracting => 1u8,
            Stage::Measuring => 2u8,
            Stage::Done(_) => 3u8,
            Stage::Failed(_) => 4u8,
        }),
{
    match stage {
        Stage::Waiting => 0,
        Stage::Extracting => 1,
        Stage::Measuring => 2,
        Stage::Done(_) => 3,
        Stage::Failed(_) => 4,
    }
}

/// One track from one source.
///
/// `A` is what the page attaches: the file the audio is in, which is handed to
/// `analyze` to be measured and to `device-add` to be written, and the figures
/// drawn while measuring it. The rules here never read it.
#[derive(Clone, Debug)]
pub struct Track<A> {
    /// What it came out of, by [`Source::id`].
    pub source: u32,
    /// The path inside that archive, which is what identifies it to the worker.
    /// For a loose track it is the file's own name.
    pub name: String,
    /// What the analyser called it, `126_05A_Artist-Title.flac`. The format the
    /// image is written in may still rename it.
    pub export_name: Option<String>,
    pub size: u64,
    pub stage: Stage,
    /// Whether the person wants it on the image. Their choice alone.
    pub included: bool,
    /// The report as the analyser wrote it, which is what the device builder
    /// parses.
    pub report_json: Option<String>,
    pub audio: A,
}

/// What a track lands on the image as, once the format has renamed it.
pub open spec fn image_name_of<A>(track: Track<A>, format: Format) -> Option<Seq<char>> {
    match track.export_name {
        Some(name) => Some(renamed(format, name@)),
        None => None,
    }
}

impl<A> Track<A> {
    /// The part of the name a person reads, without the directories the shop
    /// zipped it under.
    pub fn display_name(&self) -> (r: &str)
        ensures
            r@ == last_segment(self.name@),
    {
        last_path_segment(self.name.as_str())
    }

    /// What this track occupies on the image, where that is the file's own
    /// size: before it is measured, and for the format that copies the file
    /// across.
    ///
    /// `None` for a measured track that is re-encoded, whose size is arithmetic
    /// over its duration, a fractional number the page works out.
    pub fn image_bytes(&self, format: Format) -> (r: Option<u64>)
        ensures
            r == (if !(self.stage is Done) || format == Format::Source {
                Some(self.size)
            } else {
                None
            }),
    {
        match self.stage {
            Stage::Done(_) => match format {
                Format::Source => Some(self.size),
                _ => None,
            },
            _ => Some(self.size),
        }
    }

    /// What this track lands on the image as, once the format has renamed it.
    pub fn image_name(&self, format: Format) -> (r: Option<String>)
        ensures
            match r {
                Some(name) => image_name_of(*self, format) == Some(name@),
                None => image_name_of(*self, format) is None,
            },
    {
        match &self.export_name {
            Some(export_name) => Some(format.rename(export_name.as_str())),
            None => None,
        }
    }
}

/// What the page is doing.
#[derive(Clone, Debug)]
pub enum Phase {
    /// Nothing dropped yet.
    Idle,
    Reading,
    Analysing,
    /// Everything dropped so far has been measured. The image has not been asked
    /// for, and more may still arrive.
    Measured,
    /// Reading the sources again for the tracks that were kept. `gathered` of
    /// `total`; at the end of it the filesystem itself is being written.
    Building { gathered: usize, total: usize },
    /// An image is ready, as an object URL and its size in bytes.
    Ready { url: String, bytes: usize },
    Failed(String),
}

/// Where one track stands with respect to the image.
#[derive(Clone, Copy, Debug, PartialEq, Eq, Hash, Structural)]
pub enum Standing {
    /// On the image.
    Kept,
    /// Not measured, or measured and refused.
    Unmeasured,
    /// Unticked by hand.
    Unticked,
    /// An earlier source already writes the name this one wants.
    Duplicate,
    /// Measured, but neither exporter can write a track of this format.
    Unwritable,
}

impl Standing {
    /// What the row says about being off, or nothing when it is on.
    pub fn reason(self) -> (r: Option<&'static str>)
        ensures
            match self {
                Standing::Duplicate => r matches Some(s) && s@
                    == "An earlier source already writes this name"@,
                Standing::Unwritable => r matches Some(s) && s@
                    == "Neither database can hold this format, so it cannot go on the image. Measured all the same, and re-encoding is what will fix it."@,
                _ => r is None,
            },
    {
        match self {
            Standing::Duplicate => Some("An earlier source already writes this name"),
            Standing::Unwritable => Some(
                "Neither database can hold this format, so it cannot go on the image. Measured all the same, and re-encoding is what will fix it.",
            ),
            _ => None,
        }
    }
}

/// The line under a row's name: why the track failed, why it is off the
/// image, what it was called before the format renamed it, or what is
/// happening to it, in that order. The flag says whether it is bad news. A
/// line with nothing to say holds a no-break space, so every row keeps its
/// height.
pub open spec fn row_note_of(stage: Stage, standing: Standing, name: Seq<char>) -> (Seq<char>, bool) {
    let (text, bad) = match stage {
        Stage::Failed(why) => (why@, true),
        _ => match standing {
            Standing::Duplicate => ("An earlier source already writes this name"@, true),
            Standing::Unwritable => (
                "Neither database can hold this format, so it cannot go on the image. Measured all the same, and re-encoding is what will fix it."@,
                true,
            ),
            _ => match stage {
                Stage::Done(_) => (name, false),
                Stage::Waiting => ("Waiting"@, false),
                Stage::Extracting => ("Unpacking"@, false),
                Stage::Measuring => ("Measuring"@, false),
                _ => (Seq::<char>::empty(), false),
            },
        },
    };
    if text.len() == 0 {
        (seq!['\u{a0}'], bad)
    } else {
        (text, bad)
    }
}

/// The line under a row's name, and whether it is bad news.
pub fn row_note(stage: &Stage, standing: Standing, name: &str) -> (r: (String, bool))
    ensures
        (r.0@, r.1) == row_note_of(*stage, standing, name@),
{
    let (text, bad) = match stage {
        Stage::Failed(why) => (why.clone(), true),
        _ => match standing.reason() {
            Some(reason) => (String::from_str(reason), true),
            None => match stage {
                Stage::Done(_) => (String::from_str(name), false),
                Stage::Waiting => (String::from_str("Waiting"), false),
                Stage::Extracting => (String::from_str("Unpacking"), false),
                Stage::Measuring => (String::from_str("Measuring"), false),
                Stage::Failed(_) => (String::new(), false),
            },
        },
    };
    if text.as_str().unicode_len() == 0 {
        let mut blank = String::new();
        push_char(&mut blank, '\u{a0}');
        (blank, bad)
    } else {
        (text, bad)
    }
}

/// Whether a track would be written if nothing earlier claimed its name:
/// measured, ticked, and under a name the device can write.
pub open spec fn eligible<A>(track: Track<A>, format: Format) -> bool {
    &&& track.export_name is Some
    &&& track.report_json is Some
    &&& track.included
    &&& is_writable(renamed(format, track.export_name.unwrap()@))
}

/// Where track `i` stands.
///
/// A track is on the image when it was measured, when it was not unticked,
/// when nothing before it already claimed the name it would be written under,
/// and when a player can read what that name ends in. The earlier source wins,
/// which is the order they were dropped in.
pub open spec fn standing_at<A>(tracks: Seq<Track<A>>, format: Format, i: int) -> Standing {
    let track = tracks[i];
    if track.export_name is None || track.report_json is None {
        Standing::Unmeasured
    } else if !track.included {
        Standing::Unticked
    } else if !is_writable(renamed(format, track.export_name.unwrap()@)) {
        Standing::Unwritable
    } else if exists|j: int|
        0 <= j < i && eligible(#[trigger] tracks[j], format) && image_name_of(tracks[j], format)
            == image_name_of(track, format) {
        Standing::Duplicate
    } else {
        Standing::Kept
    }
}

/// Where every track stands, in order.
pub open spec fn standings<A>(tracks: Seq<Track<A>>, format: Format) -> Seq<Standing> {
    Seq::new(tracks.len(), |i: int| standing_at(tracks, format, i))
}

/// The name a measured track would be written under, as characters, or
/// nothing for a track that is not eligible.
fn claim_name<A>(track: &Track<A>, format: Format) -> (r: Option<Vec<char>>)
    ensures
        match r {
            Some(name) => eligible(*track, format) && image_name_of(*track, format) == Some(name@),
            None => !eligible(*track, format),
        },
{
    if track.report_json.is_none() || !track.included {
        return None;
    }
    match track.image_name(format) {
        None => None,
        Some(name) => {
            if writable(name.as_str()) {
                Some(chars_of(name.as_str()))
            } else {
                None
            }
        },
    }
}

/// Where every track stands, in order.
///
/// Two archives that share a release are the ordinary case for the rule about
/// names. Both copies measure the same, so both want the same name, and one
/// FAT32 directory holds one of them.
///
/// The name judged is the one the format produces rather than the one the
/// analyser returned. Writing everything as WAV is itself a way for a FLAC and
/// an MP3 of one track to collide.
pub fn standing<A>(tracks: &Vec<Track<A>>, format: Format) -> (r: Vec<Standing>)
    ensures
        r@ == standings(tracks@, format),
{
    let mut names: Vec<Option<Vec<char>>> = Vec::new();
    let mut k: usize = 0;
    while k < tracks.len()
        invariant
            k <= tracks@.len(),
            names@.len() == k,
            forall|j: int|
                0 <= j < k ==> match #[trigger] names@[j] {
                    Some(name) => eligible(tracks@[j], format) && image_name_of(
                        tracks@[j],
                        format,
                    ) == Some(name@),
                    None => !eligible(tracks@[j], format),
                },
        decreases tracks@.len() - k,
    {
        names.push(claim_name(&tracks[k], format));
        k = k + 1;
    }

    let mut r: Vec<Standing> = Vec::new();
    let mut i: usize = 0;
    while i < tracks.len()
        invariant
            i <= tracks@.len(),
            names@.len() == tracks@.len(),
            forall|j: int|
                0 <= j < tracks@.len() ==> match #[trigger] names@[j] {
                    Some(name) => eligible(tracks@[j], format) && image_name_of(
                        tracks@[j],
                        format,
                    ) == Some(name@),
                    None => !eligible(tracks@[j], format),
                },
            r@ == standings(tracks@, format).take(i as int),
        decreases tracks@.len() - i,
    {
        let track = &tracks[i];
        let ghost spec_name = image_name_of(tracks@[i as int], format);
        let judged = if track.export_name.is_none() || track.report_json.is_none() {
            Standing::Unmeasured
        } else if !track.included {
            Standing::Unticked
        } else {
            match &names[i] {
                None => Standing::Unwritable,
                Some(name) => {
                    let mut clash = false;
                    let mut j: usize = 0;
                    while j < i
                        invariant
                            j <= i < tracks@.len(),
                            names@.len() == tracks@.len(),
                            names@[i as int] == Some(*name),
                            forall|m: int|
                                0 <= m < tracks@.len() ==> match #[trigger] names@[m] {
                                    Some(nm) => eligible(tracks@[m], format) && image_name_of(
                                        tracks@[m],
                                        format,
                                    ) == Some(nm@),
                                    None => !eligible(tracks@[m], format),
                                },
                            clash == exists|m: int|
                                0 <= m < j && eligible(#[trigger] tracks@[m], format)
                                    && image_name_of(tracks@[m], format) == image_name_of(
                                    tracks@[i as int],
                                    format,
                                ),
                        decreases i - j,
                    {
                        match &names[j] {
                            Some(other) => {
                                if eq_chars(other.as_slice(), name.as_slice()) {
                                    clash = true;
                                }
                            },
                            None => {},
                        }
                        j = j + 1;
                    }
                    if clash {
                        Standing::Duplicate
                    } else {
                        Standing::Kept
                    }
                },
            }
        };
        assert(judged == standing_at(tracks@, format, i as int));
        r.push(judged);
        i = i + 1;
        assert(r@ =~= standings(tracks@, format).take(i as int));
    }
    assert(standings(tracks@, format).take(tracks@.len() as int) =~= standings(tracks@, format));
    r
}

/// No two tracks on the image share a name: one FAT32 directory holds one file
/// under each name.
pub proof fn kept_names_are_distinct<A>(tracks: Seq<Track<A>>, format: Format, i: int, j: int)
    requires
        0 <= i < j < tracks.len(),
        standings(tracks, format)[i] == Standing::Kept,
        standings(tracks, format)[j] == Standing::Kept,
    ensures
        image_name_of(tracks[i], format) != image_name_of(tracks[j], format),
{
    assert(standing_at(tracks, format, i) == Standing::Kept);
    assert(eligible(tracks[i], format));
    assert(standing_at(tracks, format, j) == Standing::Kept);
}

/// A track held off as a duplicate is held off for a track that is on the
/// image under the same name, from an earlier source.
pub proof fn earlier_source_wins<A>(tracks: Seq<Track<A>>, format: Format, i: int)
    requires
        0 <= i < tracks.len(),
        standings(tracks, format)[i] == Standing::Duplicate,
    ensures
        exists|j: int|
            0 <= j < i && standings(tracks, format)[j] == Standing::Kept && image_name_of(
                #[trigger] tracks[j],
                format,
            ) == image_name_of(tracks[i], format),
    decreases i,
{
    assert(standing_at(tracks, format, i) == Standing::Duplicate);
    let j = choose|j: int|
        0 <= j < i && eligible(#[trigger] tracks[j], format) && image_name_of(tracks[j], format)
            == image_name_of(tracks[i], format);
    let at_j = standing_at(tracks, format, j);
    assert(at_j == Standing::Kept || at_j == Standing::Duplicate);
    if at_j == Standing::Duplicate {
        assert(standings(tracks, format)[j] == Standing::Duplicate);
        earlier_source_wins(tracks, format, j);
        let k = choose|k: int|
            0 <= k < j && standings(tracks, format)[k] == Standing::Kept && image_name_of(
                #[trigger] tracks[k],
                format,
            ) == image_name_of(tracks[j], format);
        assert(0 <= k < i);
    } else {
        assert(standings(tracks, format)[j] == Standing::Kept);
    }
}

/// A track's standing depends on it and the tracks before it alone, so a
/// source dropped later never moves a row that is already on the image off it.
pub proof fn later_sources_never_move_earlier_rows<A>(
    tracks: Seq<Track<A>>,
    format: Format,
    n: int,
)
    requires
        0 <= n <= tracks.len(),
    ensures
        standings(tracks.take(n), format) == standings(tracks, format).take(n),
{
    let prefix = tracks.take(n);
    assert forall|i: int| 0 <= i < n implies standing_at(prefix, format, i) == standing_at(
        tracks,
        format,
        i,
    ) by {
        assert(prefix[i] == tracks[i]);
        assert forall|j: int| 0 <= j < i implies prefix[j] == tracks[j] by {}
        if exists|j: int|
            0 <= j < i && eligible(#[trigger] tracks[j], format) && image_name_of(tracks[j], format)
                == image_name_of(tracks[i], format) {
            let j = choose|j: int|
                0 <= j < i && eligible(#[trigger] tracks[j], format) && image_name_of(
                    tracks[j],
                    format,
                ) == image_name_of(tracks[i], format);
            assert(prefix[j] == tracks[j]);
        }
    }
    assert(standings(prefix, format) =~= standings(tracks, format).take(n));
}

/// How many tracks have been measured.
pub open spec fn done_count<A>(tracks: Seq<Track<A>>) -> nat
    decreases tracks.len(),
{
    if tracks.len() == 0 {
        0
    } else {
        done_count(tracks.drop_last()) + if tracks.last().stage is Done {
            1nat
        } else {
            0nat
        }
    }
}

/// How many tracks could not be measured.
pub open spec fn failed_count<A>(tracks: Seq<Track<A>>) -> nat
    decreases tracks.len(),
{
    if tracks.len() == 0 {
        0
    } else {
        failed_count(tracks.drop_last()) + if tracks.last().stage is Failed {
            1nat
        } else {
            0nat
        }
    }
}

/// Every report, in the order the sources listed them.
pub open spec fn done_reports<A>(tracks: Seq<Track<A>>) -> Seq<Report>
    decreases tracks.len(),
{
    if tracks.len() == 0 {
        Seq::empty()
    } else {
        match tracks.last().stage {
            Stage::Done(report) => done_reports(tracks.drop_last()).push(report),
            _ => done_reports(tracks.drop_last()),
        }
    }
}

/// How many times one standing occurs.
pub open spec fn count_standing(s: Seq<Standing>, which: Standing) -> nat
    decreases s.len(),
{
    if s.len() == 0 {
        0
    } else {
        count_standing(s.drop_last(), which) + if s.last() == which {
            1nat
        } else {
            0nat
        }
    }
}

/// How many loose tracks were dropped.
pub open spec fn loose_count(sources: Seq<Source>) -> nat
    decreases sources.len(),
{
    if sources.len() == 0 {
        0
    } else {
        loose_count(sources.drop_last()) + if sources.last().kind == Kind::Loose {
            1nat
        } else {
            0nat
        }
    }
}

/// Which sources a removal picks out.
#[derive(Clone, Copy, Debug, PartialEq, Eq, Structural)]
pub enum Pick {
    /// The one source with this id.
    One(u32),
    /// Every loose track, which the sources card lists as one line.
    Loose,
}

/// Whether a removal picks out this source.
pub open spec fn picks(pick: Pick, source: Source) -> bool {
    match pick {
        Pick::One(id) => source.id == id,
        Pick::Loose => source.kind == Kind::Loose,
    }
}

/// The sources a removal leaves, in their order.
pub open spec fn sources_left(sources: Seq<Source>, pick: Pick) -> Seq<Source>
    decreases sources.len(),
{
    if sources.len() == 0 {
        Seq::empty()
    } else if picks(pick, sources.last()) {
        sources_left(sources.drop_last(), pick)
    } else {
        sources_left(sources.drop_last(), pick).push(sources.last())
    }
}

/// Whether some source a removal picks out carries this id.
pub open spec fn picked_id(sources: Seq<Source>, pick: Pick, id: u32) -> bool {
    exists|k: int| 0 <= k < sources.len() && picks(pick, #[trigger] sources[k]) && sources[k].id == id
}

/// The tracks a removal leaves, in their order: every track whose source was
/// not picked out.
pub open spec fn tracks_left<A>(tracks: Seq<Track<A>>, sources: Seq<Source>, pick: Pick) -> Seq<
    Track<A>,
>
    decreases tracks.len(),
{
    if tracks.len() == 0 {
        Seq::empty()
    } else if picked_id(sources, pick, tracks.last().source) {
        tracks_left(tracks.drop_last(), sources, pick)
    } else {
        tracks_left(tracks.drop_last(), sources, pick).push(tracks.last())
    }
}

/// What the image will come to, before anything is built.
///
/// The point of it is the stick. A person with a 32 GB stick and forty gigabytes
/// of archive needs to know which it is before spending ten minutes building
/// something that will not fit, and the number moves as rows are unticked.
#[derive(Clone, Copy, Debug, PartialEq, Eq, Structural)]
pub struct Estimate {
    /// What the `.img` will be.
    pub total: u64,
    /// The audio itself, which is exact.
    pub audio: u64,
    /// The two databases, which is the part that is guessed.
    pub databases: u64,
    /// Whether FAT32's own floor is what sets the size rather than the content.
    pub at_minimum: bool,
}

/// Slack over the payload, and the floor under the whole thing.
///
/// These four are `image::build`'s own constants rather than an impression of
/// them, which is what makes this an arithmetic answer instead of a guess: the
/// only estimated term is the database size below.
pub const SLACK_PERCENT: u64 = 12;
pub const SLACK_BYTES: u64 = 67108864;
pub const MINIMUM_BYTES: u64 = 134217728;
pub const SECTOR_BYTES: u64 = 512;

/// What the two databases come to, measured rather than reasoned about.
///
/// Built from eight two-minute tracks and again from four of them, and solved:
/// 385 KB that is there whatever the collection is, and 536 bytes per second
/// of audio on top. The fixed part is the Engine schema and the rekordbox
/// skeleton; the rest is the beat grid and the waveform each player draws,
/// which is why it is charged per second rather than per track.
pub const DATABASE_FIXED: u64 = 385000;
pub const DATABASE_PER_SECOND: u64 = 536;

/// The image size for a payload: twelve percent and 64 MB of slack over it,
/// never under the FAT32 floor, and a whole number of sectors.
pub open spec fn sized(payload: nat) -> nat {
    payload * (100 + SLACK_PERCENT) as nat / 100 + SLACK_BYTES as nat
}

/// The smallest multiple of a sector at or above `bytes`.
pub open spec fn whole_sectors(bytes: nat) -> nat {
    (((bytes + 511) as nat) / 512) * 512
}

/// What an image holding `audio` bytes of audio and `databases` bytes of
/// databases comes to.
pub open spec fn estimate_of(audio: nat, databases: nat) -> Estimate {
    if audio == 0 {
        Estimate { total: 0, audio: 0, databases: 0, at_minimum: false }
    } else {
        let s = sized(audio + databases);
        let floor = if s < MINIMUM_BYTES { MINIMUM_BYTES as nat } else { s };
        Estimate {
            total: whole_sectors(floor) as u64,
            audio: audio as u64,
            databases: databases as u64,
            at_minimum: s < MINIMUM_BYTES,
        }
    }
}

/// The image size for `audio` bytes of audio and `databases` bytes of
/// databases.
///
/// Nothing at all when there is no audio: an image of nothing is not built.
///
/// The payload is scaled by the slack before it is divided, so it has to leave
/// room for that product in a `u64`: about 1.6e17 bytes.
pub fn size_estimate(audio: u64, databases: u64) -> (r: Estimate)
    requires
        (audio + databases) * (100 + SLACK_PERCENT) <= u64::MAX,
    ensures
        r == estimate_of(audio as nat, databases as nat),
{
    if audio == 0 {
        return Estimate { total: 0, audio: 0, databases: 0, at_minimum: false };
    }
    assert((audio + databases) * 112 <= u64::MAX);
    let payload = audio + databases;
    let sized_bytes = payload * (100 + SLACK_PERCENT) / 100 + SLACK_BYTES;
    let floor = if sized_bytes < MINIMUM_BYTES { MINIMUM_BYTES } else { sized_bytes };
    let total = (floor + SECTOR_BYTES - 1) / SECTOR_BYTES * SECTOR_BYTES;
    Estimate { total, audio, databases, at_minimum: sized_bytes < MINIMUM_BYTES }
}

/// Whatever is in the estimate, the image is at least the FAT32 floor and a
/// whole number of sectors, and it holds every byte of the payload with the
/// slack the builder adds.
pub proof fn estimate_covers_the_payload(audio: nat, databases: nat)
    requires
        audio > 0,
        (audio + databases) * (100 + SLACK_PERCENT) <= u64::MAX,
    ensures
        estimate_of(audio, databases).total >= MINIMUM_BYTES,
        estimate_of(audio, databases).total % SECTOR_BYTES == 0,
        estimate_of(audio, databases).total >= sized(audio + databases),
        estimate_of(audio, databases).total < sized(audio + databases) + MINIMUM_BYTES
            + SECTOR_BYTES,
        estimate_of(audio, databases).at_minimum <==> sized(audio + databases) < MINIMUM_BYTES,
{
    let payload = audio + databases;
    let s = sized(payload);
    let floor = if s < MINIMUM_BYTES { MINIMUM_BYTES as nat } else { s };
    let w = whole_sectors(floor);
    assert(w >= floor && w % 512 == 0 && w < floor + 512) by (nonlinear_arith)
        requires
            w == ((floor + 511) / 512) * 512,
    ;
}

/// The whole state of a run.
pub struct Run<A> {
    pub phase: Phase,
    /// What was dropped, in the order it was dropped.
    pub sources: Vec<Source>,
    /// Every track from every source, in the order they were listed.
    pub tracks: Vec<Track<A>>,
    pub device: Device,
    /// The track whose figures are open, by index.
    pub inspecting: Option<usize>,
    /// The audio formats this build's worker can write, by wire name.
    ///
    /// Asked for once on load rather than assumed, because what a module can
    /// encode is a property of the crates it links. Empty until the answer
    /// arrives.
    pub formats: Vec<String>,
    /// Download links of images the page no longer describes, waiting to be
    /// revoked. The blob behind each is the whole library, so a stale one is
    /// handed back rather than forgotten.
    pub stale: Vec<String>,
    /// The id the next source will be given.
    pub next_source: u32,
}

/// Every track that carries the report the build reads has been measured.
pub open spec fn measured_means_done<A>(tracks: Seq<Track<A>>) -> bool {
    forall|i: int|
        0 <= i < tracks.len() && (#[trigger] tracks[i]).report_json is Some ==> tracks[i].stage is Done
}

/// A track with its tick set.
pub open spec fn ticked<A>(track: Track<A>, included: bool) -> Track<A> {
    Track { included, ..track }
}

/// A track with its stage set.
pub open spec fn staged<A>(track: Track<A>, stage: Stage) -> Track<A> {
    Track { stage, ..track }
}

/// Where the first source with this id sits, searching from `from`, or `-1`.
pub open spec fn source_position(sources: Seq<Source>, id: u32, from: int) -> int
    decreases sources.len() - from,
{
    if from < 0 || from >= sources.len() {
        -1
    } else if sources[from].id == id {
        from
    } else {
        source_position(sources, id, from + 1)
    }
}

/// What the tracks table calls the source with this id, or nothing when there
/// is no such source.
pub open spec fn source_label_of(sources: Seq<Source>, id: u32) -> Seq<char> {
    let at = source_position(sources, id, 0);
    if at >= 0 {
        label_of(sources[at])
    } else {
        Seq::empty()
    }
}

proof fn lemma_source_position(sources: Seq<Source>, id: u32, from: int)
    requires
        0 <= from <= sources.len(),
    ensures
        source_position(sources, id, from) == -1 || (from <= source_position(sources, id, from)
            < sources.len() && sources[source_position(sources, id, from)].id == id),
    decreases sources.len() - from,
{
    if from < sources.len() && sources[from].id != id {
        lemma_source_position(sources, id, from + 1);
    }
}

/// Every source a removal leaves was there before it.
proof fn lemma_sources_left_members(sources: Seq<Source>, pick: Pick)
    ensures
        forall|i: int|
            0 <= i < sources_left(sources, pick).len() ==> exists|k: int|
                0 <= k < sources.len() && sources[k] == #[trigger] sources_left(sources, pick)[i],
    decreases sources.len(),
{
    if sources.len() > 0 {
        let prefix = sources.drop_last();
        lemma_sources_left_members(prefix, pick);
        assert forall|i: int| 0 <= i < sources_left(sources, pick).len() implies exists|k: int|
            0 <= k < sources.len() && sources[k] == #[trigger] sources_left(sources, pick)[i] by {
            if i < sources_left(prefix, pick).len() {
                let k = choose|k: int|
                    0 <= k < prefix.len() && prefix[k] == #[trigger] sources_left(prefix, pick)[i];
                assert(sources[k] == prefix[k]);
            } else {
                assert(sources[sources.len() - 1] == sources_left(sources, pick)[i]);
            }
        }
    }
}

/// Ids in increasing order, each under a bound.
pub open spec fn ids_increasing_below(sources: Seq<Source>, bound: u32) -> bool {
    &&& forall|i: int, j: int| 0 <= i < j < sources.len() ==> sources[i].id < sources[j].id
    &&& forall|i: int| 0 <= i < sources.len() ==> sources[i].id < bound
}

/// A removal keeps the ids in increasing order and under their bound.
proof fn lemma_sources_left_ordered(sources: Seq<Source>, pick: Pick, bound: u32)
    requires
        ids_increasing_below(sources, bound),
    ensures
        ids_increasing_below(sources_left(sources, pick), bound),
    decreases sources.len(),
{
    if sources.len() > 0 {
        let prefix = sources.drop_last();
        lemma_sources_left_ordered(prefix, pick, sources.last().id);
        lemma_sources_left_ordered(prefix, pick, bound);
    }
}

impl<A> Run<A> {
    /// The id the next source will be given.
    pub open spec fn next_id(&self) -> u32 {
        self.next_source
    }

    /// The sources keep their ids in the order they were given, every one of
    /// them below the next to be given out, and a track carries the report the
    /// build reads only once it is measured.
    pub open spec fn wf(&self) -> bool {
        &&& ids_increasing_below(self.sources@, self.next_id())
        &&& measured_means_done(self.tracks@)
    }

    /// A run with nothing dropped.
    pub fn new() -> (r: Run<A>)
        ensures
            r.phase is Idle,
            r.sources@.len() == 0,
            r.tracks@.len() == 0,
            crate::options::is_default_device(r.device),
            r.inspecting is None,
            r.formats@.len() == 0,
            r.stale@.len() == 0,
            r.next_id() == 0,
            r.wf(),
    {
        Run {
            phase: Phase::Idle,
            sources: Vec::new(),
            tracks: Vec::new(),
            device: Device::default(),
            inspecting: None,
            formats: Vec::new(),
            stale: Vec::new(),
            next_source: 0,
        }
    }

    /// How many tracks have been measured.
    pub fn measured(&self) -> (r: usize)
        ensures
            r == done_count(self.tracks@),
    {
        let mut count: usize = 0;
        let mut i: usize = 0;
        while i < self.tracks.len()
            invariant
                i <= self.tracks@.len(),
                count == done_count(self.tracks@.take(i as int)),
                count <= i,
            decreases self.tracks@.len() - i,
        {
            assert(self.tracks@.take(i + 1).drop_last() =~= self.tracks@.take(i as int));
            if let Stage::Done(_) = &self.tracks[i].stage {
                count = count + 1;
            }
            i = i + 1;
        }
        assert(self.tracks@.take(i as int) =~= self.tracks@);
        count
    }

    /// How many tracks could not be measured.
    pub fn failed(&self) -> (r: usize)
        ensures
            r == failed_count(self.tracks@),
    {
        let mut count: usize = 0;
        let mut i: usize = 0;
        while i < self.tracks.len()
            invariant
                i <= self.tracks@.len(),
                count == failed_count(self.tracks@.take(i as int)),
                count <= i,
            decreases self.tracks@.len() - i,
        {
            assert(self.tracks@.take(i + 1).drop_last() =~= self.tracks@.take(i as int));
            if let Stage::Failed(_) = &self.tracks[i].stage {
                count = count + 1;
            }
            i = i + 1;
        }
        assert(self.tracks@.take(i as int) =~= self.tracks@);
        count
    }

    /// Every report, in the order the sources listed them.
    pub fn reports(&self) -> (r: Vec<&Report>)
        ensures
            r@.map_values(|report: &Report| *report) == done_reports(self.tracks@),
    {
        let mut r: Vec<&Report> = Vec::new();
        let mut i: usize = 0;
        while i < self.tracks.len()
            invariant
                i <= self.tracks@.len(),
                r@.map_values(|report: &Report| *report) == done_reports(
                    self.tracks@.take(i as int),
                ),
            decreases self.tracks@.len() - i,
        {
            assert(self.tracks@.take(i + 1).drop_last() =~= self.tracks@.take(i as int));
            let ghost prev = r@;
            if let Stage::Done(report) = &self.tracks[i].stage {
                r.push(report);
                assert(r@ =~= prev.push(report));
                assert(r@.map_values(|report: &Report| *report) =~= prev.map_values(
                    |report: &Report| *report,
                ).push(*report));
            }
            i = i + 1;
        }
        assert(self.tracks@.take(i as int) =~= self.tracks@);
        r
    }

    /// Where every track stands with respect to the image, one per row.
    pub fn standing(&self) -> (r: Vec<Standing>)
        ensures
            r@ == standings(self.tracks@, self.device.format),
    {
        standing(&self.tracks, self.device.format)
    }

    /// How many tracks are on the image.
    pub fn selected(&self) -> (r: usize)
        ensures
            r == count_standing(standings(self.tracks@, self.device.format), Standing::Kept),
    {
        let all = self.standing();
        let mut count: usize = 0;
        let mut i: usize = 0;
        while i < all.len()
            invariant
                i <= all@.len(),
                all@ == standings(self.tracks@, self.device.format),
                count == count_standing(all@.take(i as int), Standing::Kept),
                count <= i,
            decreases all@.len() - i,
        {
            assert(all@.take(i + 1).drop_last() =~= all@.take(i as int));
            if all[i] == Standing::Kept {
                count = count + 1;
            }
            i = i + 1;
        }
        assert(all@.take(i as int) =~= all@);
        count
    }

    /// Throw away an image the page is no longer describing.
    ///
    /// Ticking a row, dropping another file or changing a device setting all
    /// change what an image would hold, and the finished one is still sitting
    /// behind a download link saying otherwise. Its link goes to `stale`, to be
    /// revoked, and the run is back to measured.
    pub fn invalidate(&mut self)
        ensures
            match old(self).phase {
                Phase::Ready { url, bytes } => {
                    &&& final(self).phase is Measured
                    &&& final(self).stale@ == old(self).stale@.push(url)
                },
                _ => {
                    &&& final(self).phase == old(self).phase
                    &&& final(self).stale@ == old(self).stale@
                },
            },
            final(self).sources == old(self).sources,
            final(self).tracks == old(self).tracks,
            final(self).device == old(self).device,
            final(self).inspecting == old(self).inspecting,
            final(self).formats == old(self).formats,
            final(self).next_id() == old(self).next_id(),
    {
        let mut previous = Phase::Measured;
        std::mem::swap(&mut previous, &mut self.phase);
        match previous {
            Phase::Ready { url, bytes } => {
                self.stale.push(url);
            },
            other => {
                self.phase = other;
            },
        }
    }

    /// Tick or untick one row.
    pub fn set_included(&mut self, index: usize, included: bool)
        ensures
            final(self).tracks@ == (if index < old(self).tracks@.len() {
                old(self).tracks@.update(
                    index as int,
                    ticked(old(self).tracks@[index as int], included),
                )
            } else {
                old(self).tracks@
            }),
            match old(self).phase {
                Phase::Ready { url, bytes } => {
                    &&& final(self).phase is Measured
                    &&& final(self).stale@ == old(self).stale@.push(url)
                },
                _ => {
                    &&& final(self).phase == old(self).phase
                    &&& final(self).stale@ == old(self).stale@
                },
            },
            final(self).sources == old(self).sources,
            final(self).device == old(self).device,
            final(self).inspecting == old(self).inspecting,
            final(self).formats == old(self).formats,
            final(self).next_id() == old(self).next_id(),
            old(self).wf() ==> final(self).wf(),
    {
        if index < self.tracks.len() {
            self.tracks[index].included = included;
        }
        self.invalidate();
    }

    /// Tick or untick everything.
    pub fn include_all(&mut self, included: bool)
        ensures
            final(self).tracks@.len() == old(self).tracks@.len(),
            forall|i: int|
                0 <= i < old(self).tracks@.len() ==> #[trigger] final(self).tracks@[i] == ticked(
                    old(self).tracks@[i],
                    included,
                ),
            match old(self).phase {
                Phase::Ready { url, bytes } => {
                    &&& final(self).phase is Measured
                    &&& final(self).stale@ == old(self).stale@.push(url)
                },
                _ => {
                    &&& final(self).phase == old(self).phase
                    &&& final(self).stale@ == old(self).stale@
                },
            },
            final(self).sources == old(self).sources,
            final(self).device == old(self).device,
            final(self).inspecting == old(self).inspecting,
            final(self).formats == old(self).formats,
            final(self).next_id() == old(self).next_id(),
            old(self).wf() ==> final(self).wf(),
    {
        let ghost before = self.tracks@;
        let mut i: usize = 0;
        while i < self.tracks.len()
            invariant
                i <= self.tracks@.len(),
                self.tracks@.len() == before.len(),
                forall|j: int| 0 <= j < i ==> #[trigger] self.tracks@[j] == ticked(before[j], included),
                forall|j: int| i <= j < before.len() ==> #[trigger] self.tracks@[j] == before[j],
                self.phase == old(self).phase,
                self.stale == old(self).stale,
                self.sources == old(self).sources,
                self.device == old(self).device,
                self.inspecting == old(self).inspecting,
                self.formats == old(self).formats,
                self.next_source == old(self).next_source,
                before == old(self).tracks@,
            decreases self.tracks@.len() - i,
        {
            self.tracks[i].included = included;
            i = i + 1;
        }
        self.invalidate();
    }

    /// Forget one source and everything it contributed.
    pub fn remove_source(&mut self, id: u32)
        ensures
            final(self).sources@ == sources_left(old(self).sources@, Pick::One(id)),
            final(self).tracks@ == tracks_left(old(self).tracks@, old(self).sources@, Pick::One(id)),
            final(self).inspecting is None,
            final(self).tracks@.len() == 0 ==> final(self).phase is Idle,
            final(self).tracks@.len() > 0 ==> match old(self).phase {
                Phase::Ready { url, bytes } => final(self).phase is Measured,
                _ => final(self).phase == old(self).phase,
            },
            final(self).stale@ == (match old(self).phase {
                Phase::Ready { url, bytes } => old(self).stale@.push(url),
                _ => old(self).stale@,
            }),
            final(self).device == old(self).device,
            final(self).formats == old(self).formats,
            final(self).next_id() == old(self).next_id(),
            old(self).wf() ==> final(self).wf(),
    {
        self.forget(Pick::One(id));
    }

    /// Forget every loose track at once.
    ///
    /// They are listed as one line rather than one line each, so they are
    /// removed the same way.
    pub fn remove_loose(&mut self)
        ensures
            final(self).sources@ == sources_left(old(self).sources@, Pick::Loose),
            final(self).tracks@ == tracks_left(old(self).tracks@, old(self).sources@, Pick::Loose),
            final(self).inspecting is None,
            final(self).tracks@.len() == 0 ==> final(self).phase is Idle,
            final(self).tracks@.len() > 0 ==> match old(self).phase {
                Phase::Ready { url, bytes } => final(self).phase is Measured,
                _ => final(self).phase == old(self).phase,
            },
            final(self).stale@ == (match old(self).phase {
                Phase::Ready { url, bytes } => old(self).stale@.push(url),
                _ => old(self).stale@,
            }),
            final(self).device == old(self).device,
            final(self).formats == old(self).formats,
            final(self).next_id() == old(self).next_id(),
            old(self).wf() ==> final(self).wf(),
    {
        self.forget(Pick::Loose);
    }

    /// Forget the sources a removal picks out, and every track they
    /// contributed.
    pub fn forget(&mut self, pick: Pick)
        ensures
            final(self).sources@ == sources_left(old(self).sources@, pick),
            final(self).tracks@ == tracks_left(old(self).tracks@, old(self).sources@, pick),
            final(self).inspecting is None,
            final(self).tracks@.len() == 0 ==> final(self).phase is Idle,
            final(self).tracks@.len() > 0 ==> match old(self).phase {
                Phase::Ready { url, bytes } => final(self).phase is Measured,
                _ => final(self).phase == old(self).phase,
            },
            final(self).stale@ == (match old(self).phase {
                Phase::Ready { url, bytes } => old(self).stale@.push(url),
                _ => old(self).stale@,
            }),
            final(self).device == old(self).device,
            final(self).formats == old(self).formats,
            final(self).next_id() == old(self).next_id(),
            old(self).wf() ==> final(self).wf(),
    {
        let ghost old_sources = self.sources@;
        let gone = picked_ids_of(&self.sources, pick);
        keep_sources(&mut self.sources, pick);
        keep_tracks(&mut self.tracks, &gone, Ghost(old_sources), pick);
        proof {
            if ids_increasing_below(old_sources, self.next_source) {
                lemma_sources_left_ordered(old_sources, pick, self.next_source);
            }
            lemma_left_came_from(old(self).tracks@, old_sources, pick);
            if measured_means_done(old(self).tracks@) {
                assert forall|i: int|
                    0 <= i < self.tracks@.len() && (#[trigger] self.tracks@[i]).report_json is Some
                        implies self.tracks@[i].stage is Done by {
                    let at = choose|at: int|
                        0 <= at < old(self).tracks@.len() && old(self).tracks@[at]
                            == self.tracks@[i];
                    assert(old(self).tracks@[at].report_json is Some);
                }
            }
        }
        self.inspecting = None;
        self.invalidate();
        if self.tracks.len() == 0 {
            self.phase = Phase::Idle;
        }
    }

    /// How many loose tracks were dropped.
    pub fn loose(&self) -> (r: usize)
        ensures
            r == loose_count(self.sources@),
    {
        let mut count: usize = 0;
        let mut i: usize = 0;
        while i < self.sources.len()
            invariant
                i <= self.sources@.len(),
                count == loose_count(self.sources@.take(i as int)),
                count <= i,
            decreases self.sources@.len() - i,
        {
            assert(self.sources@.take(i + 1).drop_last() =~= self.sources@.take(i as int));
            if self.sources[i].kind == Kind::Loose {
                count = count + 1;
            }
            i = i + 1;
        }
        assert(self.sources@.take(i as int) =~= self.sources@);
        count
    }

    /// What the tracks table calls the source with this id.
    pub fn source_label(&self, id: u32) -> (r: String)
        ensures
            r@ == source_label_of(self.sources@, id),
    {
        let mut i: usize = 0;
        while i < self.sources.len()
            invariant
                i <= self.sources@.len(),
                source_position(self.sources@, id, 0) == source_position(
                    self.sources@,
                    id,
                    i as int,
                ),
            decreases self.sources@.len() - i,
        {
            if self.sources[i].id == id {
                return self.sources[i].label();
            }
            i = i + 1;
        }
        String::new()
    }

    /// Record where one track has got to.
    pub fn set_stage(&mut self, index: usize, stage: Stage)
        ensures
            final(self).tracks@ == (if index < old(self).tracks@.len() {
                old(self).tracks@.update(index as int, staged(old(self).tracks@[index as int], stage))
            } else {
                old(self).tracks@
            }),
            final(self).phase == old(self).phase,
            final(self).sources == old(self).sources,
            final(self).device == old(self).device,
            final(self).inspecting == old(self).inspecting,
            final(self).formats == old(self).formats,
            final(self).stale == old(self).stale,
            final(self).next_id() == old(self).next_id(),
            old(self).wf() && (index >= old(self).tracks@.len() || stage is Done
                || old(self).tracks@[index as int].report_json is None) ==> final(self).wf(),
    {
        if index < self.tracks.len() {
            self.tracks[index].stage = stage;
        }
    }

    /// Register one more source and give it an id no source has held.
    pub fn claim(&mut self, name: String, kind: Kind) -> (id: u32)
        requires
            old(self).next_id() < u32::MAX,
        ensures
            id == old(self).next_id(),
            final(self).next_id() == id + 1,
            final(self).sources@ == old(self).sources@.push(Source { id, name, kind }),
            final(self).tracks == old(self).tracks,
            final(self).device == old(self).device,
            final(self).inspecting == old(self).inspecting,
            final(self).formats == old(self).formats,
            old(self).wf() ==> final(self).wf(),
            old(self).wf() ==> forall|k: int|
                0 <= k < old(self).sources@.len() ==> #[trigger] old(self).sources@[k].id != id,
            match old(self).phase {
                Phase::Ready { url, bytes } => {
                    &&& final(self).phase is Measured
                    &&& final(self).stale@ == old(self).stale@.push(url)
                },
                _ => {
                    &&& final(self).phase == old(self).phase
                    &&& final(self).stale@ == old(self).stale@
                },
            },
    {
        let id = self.next_source;
        self.next_source = id + 1;
        self.sources.push(Source { id, name, kind });
        self.invalidate();
        id
    }
}

/// The ids of the sources a removal picks out, in order.
pub open spec fn picked_ids(sources: Seq<Source>, pick: Pick) -> Seq<u32>
    decreases sources.len(),
{
    if sources.len() == 0 {
        Seq::empty()
    } else if picks(pick, sources.last()) {
        picked_ids(sources.drop_last(), pick).push(sources.last().id)
    } else {
        picked_ids(sources.drop_last(), pick)
    }
}

proof fn lemma_picked_ids(sources: Seq<Source>, pick: Pick, id: u32)
    ensures
        picked_ids(sources, pick).contains(id) <==> picked_id(sources, pick, id),
    decreases sources.len(),
{
    if sources.len() > 0 {
        let prefix = sources.drop_last();
        let last = sources.last();
        let before = picked_ids(prefix, pick);
        let after = picked_ids(sources, pick);
        lemma_picked_ids(prefix, pick, id);
        assert(sources[sources.len() - 1] == last);
        if before.contains(id) {
            let k = choose|k: int|
                0 <= k < prefix.len() && picks(pick, #[trigger] prefix[k]) && prefix[k].id == id;
            assert(sources[k] == prefix[k]);
            assert(picks(pick, sources[k]) && sources[k].id == id);
            let at = choose|at: int| 0 <= at < before.len() && before[at] == id;
            if picks(pick, last) {
                assert(after[at] == id);
            }
        }
        if picks(pick, last) && last.id == id {
            assert(after[before.len() as int] == id);
            assert(picks(pick, sources[sources.len() - 1]));
        }
        if picked_id(sources, pick, id) {
            let k = choose|k: int|
                0 <= k < sources.len() && picks(pick, #[trigger] sources[k]) && sources[k].id == id;
            if k < prefix.len() {
                assert(prefix[k] == sources[k]);
                assert(picks(pick, prefix[k]));
            }
        }
        if after.contains(id) && !before.contains(id) {
            let at = choose|at: int| 0 <= at < after.len() && after[at] == id;
            if !picks(pick, last) {
                assert(after == before);
            } else {
                if at < before.len() {
                    assert(after[at] == before[at]);
                }
            }
        }
    }
}

/// The ids of the sources a removal picks out.
fn picked_ids_of(sources: &Vec<Source>, pick: Pick) -> (r: Vec<u32>)
    ensures
        r@ == picked_ids(sources@, pick),
{
    let mut r: Vec<u32> = Vec::new();
    let mut k: usize = 0;
    while k < sources.len()
        invariant
            k <= sources@.len(),
            r@ == picked_ids(sources@.take(k as int), pick),
        decreases sources@.len() - k,
    {
        assert(sources@.take(k + 1).drop_last() =~= sources@.take(k as int));
        let source = &sources[k];
        let picked = match pick {
            Pick::One(id) => source.id == id,
            Pick::Loose => source.kind == Kind::Loose,
        };
        if picked {
            r.push(source.id);
        }
        k = k + 1;
    }
    assert(sources@.take(k as int) =~= sources@);
    r
}

/// Keep the sources a removal does not pick out, in their order.
fn keep_sources(sources: &mut Vec<Source>, pick: Pick)
    ensures
        final(sources)@ == sources_left(old(sources)@, pick),
{
    let ghost all = sources@;
    let n = sources.len();
    let mut i: usize = 0;
    let mut seen: usize = 0;
    while i < sources.len()
        invariant
            all.len() == n,
            seen <= n,
            i <= sources@.len(),
            sources@ == sources_left(all.take(seen as int), pick) + all.skip(seen as int),
            i == sources_left(all.take(seen as int), pick).len(),
        decreases n - seen,
    {
        assert(all.take(seen + 1).drop_last() =~= all.take(seen as int));
        assert(sources@[i as int] == all[seen as int]);
        let picked = match pick {
            Pick::One(id) => sources[i].id == id,
            Pick::Loose => sources[i].kind == Kind::Loose,
        };
        let ghost left = sources_left(all.take(seen as int), pick);
        if picked {
            sources.remove(i);
            assert(sources@ =~= sources_left(all.take(seen + 1), pick) + all.skip(seen + 1));
        } else {
            assert(sources_left(all.take(seen + 1), pick) =~= left.push(all[seen as int]));
            assert(sources@ =~= sources_left(all.take(seen + 1), pick) + all.skip(seen + 1));
            i = i + 1;
        }
        seen = seen + 1;
    }
    assert(all.take(seen as int) =~= all);
}

/// Keep the tracks whose source a removal does not pick out, in their order.
fn keep_tracks<A>(tracks: &mut Vec<Track<A>>, gone: &Vec<u32>, sources: Ghost<Seq<Source>>, pick: Pick)
    requires
        gone@ == picked_ids(sources@, pick),
    ensures
        final(tracks)@ == tracks_left(old(tracks)@, sources@, pick),
{
    let ghost all = tracks@;
    let n = tracks.len();
    let mut i: usize = 0;
    let mut seen: usize = 0;
    while i < tracks.len()
        invariant
            all.len() == n,
            seen <= n,
            i <= tracks@.len(),
            gone@ == picked_ids(sources@, pick),
            tracks@ == tracks_left(all.take(seen as int), sources@, pick) + all.skip(seen as int),
            i == tracks_left(all.take(seen as int), sources@, pick).len(),
        decreases n - seen,
    {
        assert(all.take(seen + 1).drop_last() =~= all.take(seen as int));
        assert(tracks@[i as int] == all[seen as int]);
        let ghost left = tracks_left(all.take(seen as int), sources@, pick);
        let source = tracks[i].source;
        proof {
            lemma_picked_ids(sources@, pick, source);
        }
        if contains_id(gone, source) {
            tracks.remove(i);
            assert(tracks@ =~= tracks_left(all.take(seen + 1), sources@, pick) + all.skip(seen + 1));
        } else {
            assert(tracks_left(all.take(seen + 1), sources@, pick) =~= left.push(all[seen as int]));
            assert(tracks@ =~= tracks_left(all.take(seen + 1), sources@, pick) + all.skip(seen + 1));
            i = i + 1;
        }
        seen = seen + 1;
    }
    assert(all.take(seen as int) =~= all);
}

/// Whether an id is among these.
fn contains_id(ids: &Vec<u32>, id: u32) -> (r: bool)
    ensures
        r == ids@.contains(id),
{
    let mut i: usize = 0;
    while i < ids.len()
        invariant
            i <= ids@.len(),
            forall|j: int| 0 <= j < i ==> ids@[j] != id,
        decreases ids@.len() - i,
    {
        if ids[i] == id {
            return true;
        }
        i = i + 1;
    }
    false
}

/// What came back from measuring one track.
pub struct Analysed {
    /// The report, or why it could not be read.
    pub report: Result<Report, String>,
    /// What the analyser named the track.
    pub export_name: Option<String>,
    /// The report as text, for the device builder.
    pub report_json: Option<String>,
}

/// What one measurement comes to: the report a track is done with, or why it
/// failed.
pub open spec fn measurement(analysed: Result<Analysed, String>) -> Result<Report, Seq<char>> {
    match analysed {
        Err(error) => Err(error@),
        Ok(a) => match a.report {
            Err(error) => Err("the report could not be read: "@ + error@),
            Ok(report) => if a.export_name is None || a.report_json is None {
                Err("the analyser returned a report with no name"@)
            } else {
                Ok(report)
            },
        },
    }
}

/// The sentences of several refusals, one after another.
pub open spec fn joined(reasons: Seq<Seq<char>>) -> Seq<char>
    decreases reasons.len(),
{
    if reasons.len() == 0 {
        Seq::empty()
    } else if reasons.len() == 1 {
        reasons[0]
    } else {
        joined(reasons.drop_last()) + " "@ + reasons.last()
    }
}

/// Whether a track came from the sources a pick describes.
pub open spec fn belongs_to(sources: Seq<Source>, pick: Pick, source: u32) -> bool {
    match pick {
        Pick::One(id) => source == id,
        Pick::Loose => exists|k: int|
            0 <= k < sources.len() && #[trigger] sources[k].id == source && sources[k].kind
                == Kind::Loose,
    }
}

/// How many of the tracks a pick describes there are, and how many of them
/// are on the image.
pub open spec fn contribution<A>(
    tracks: Seq<Track<A>>,
    standing: Seq<Standing>,
    sources: Seq<Source>,
    pick: Pick,
) -> (nat, nat)
    decreases tracks.len(),
{
    if tracks.len() == 0 || standing.len() != tracks.len() {
        (0, 0)
    } else {
        let (total, kept) = contribution(tracks.drop_last(), standing.drop_last(), sources, pick);
        if belongs_to(sources, pick, tracks.last().source) {
            (total + 1, if standing.last() == Standing::Kept {
                kept + 1
            } else {
                kept
            })
        } else {
            (total, kept)
        }
    }
}

/// The audio of the tracks on the image, by what each occupies.
pub open spec fn kept_audio(standing: Seq<Standing>, bytes: Seq<u64>) -> nat
    decreases standing.len(),
{
    if standing.len() == 0 || bytes.len() != standing.len() {
        0
    } else {
        kept_audio(standing.drop_last(), bytes.drop_last()) + if standing.last()
            == Standing::Kept {
            bytes.last() as nat
        } else {
            0nat
        }
    }
}

/// Where the tracks on the image sit, in order.
pub open spec fn kept_indices(standing: Seq<Standing>) -> Seq<usize>
    decreases standing.len(),
{
    if standing.len() == 0 {
        Seq::empty()
    } else if standing.last() == Standing::Kept {
        kept_indices(standing.drop_last()).push((standing.len() - 1) as usize)
    } else {
        kept_indices(standing.drop_last())
    }
}

/// What a run settles at once everything dropped at once has been handed out
/// and measured: measured, or failed with the reason of every file refused as
/// a whole, in the order they were dropped.
pub fn settled(refused: &Vec<String>) -> (r: Phase)
    ensures
        refused@.len() == 0 ==> r is Measured,
        refused@.len() > 0 ==> (r matches Phase::Failed(why) && why@ == joined(
            refused@.map_values(|s: String| s@),
        )),
{
    if refused.len() == 0 {
        return Phase::Measured;
    }
    let ghost reasons = refused@.map_values(|s: String| s@);
    let mut why = refused[0].clone();
    assert(reasons.take(1).len() == 1);
    let mut i: usize = 1;
    while i < refused.len()
        invariant
            1 <= i <= refused@.len(),
            reasons == refused@.map_values(|s: String| s@),
            why@ == joined(reasons.take(i as int)),
        decreases refused@.len() - i,
    {
        why.append(" ");
        why.append(refused[i].as_str());
        assert(reasons.take(i + 1).drop_last() =~= reasons.take(i as int));
        assert(reasons.take(i + 1).last() == refused@[i as int]@);
        i = i + 1;
    }
    assert(reasons.take(i as int) =~= reasons);
    Phase::Failed(why)
}

impl<A> Run<A> {
    /// Refuse a dropped file that is neither a zip nor a track.
    pub fn refuse(&mut self, name: &str)
        ensures
            final(self).phase matches Phase::Failed(why) && why@ == name@
                + " is neither a zip nor a track this reads. Its first bytes match no format the analyser has a reader for: WAV, AIFF, FLAC, MP3, and the audio inside an MP4, M4A, WebM or Ogg."@,
            final(self).sources == old(self).sources,
            final(self).tracks == old(self).tracks,
            final(self).device == old(self).device,
            final(self).inspecting == old(self).inspecting,
            final(self).formats == old(self).formats,
            final(self).stale == old(self).stale,
            final(self).next_id() == old(self).next_id(),
    {
        let mut why = String::from_str(name);
        why.append(
            " is neither a zip nor a track this reads. Its first bytes match no format the analyser has a reader for: WAV, AIFF, FLAC, MP3, and the audio inside an MP4, M4A, WebM or Ogg.",
        );
        self.phase = Phase::Failed(why);
    }

    /// Register an archive once its listing is in, or refuse it for holding no
    /// track at all.
    pub fn open_archive(&mut self, name: String, entries: &Vec<Entry>) -> (id: Option<u32>)
        requires
            old(self).next_id() < u32::MAX,
        ensures
            entries@.len() == 0 ==> {
                &&& id is None
                &&& final(self).phase matches Phase::Failed(why) && why@
                    == "no WAV, AIFF, FLAC or MP3 files in "@ + name@
                &&& final(self).sources == old(self).sources
                &&& final(self).stale == old(self).stale
                &&& final(self).next_id() == old(self).next_id()
            },
            entries@.len() > 0 ==> {
                &&& id == Some(old(self).next_id())
                &&& final(self).phase is Analysing
                &&& final(self).sources@ == old(self).sources@.push(
                    Source { id: old(self).next_id(), name, kind: Kind::Archive },
                )
                &&& final(self).next_id() == old(self).next_id() + 1
                &&& final(self).stale@ == (match old(self).phase {
                    Phase::Ready { url, bytes } => old(self).stale@.push(url),
                    _ => old(self).stale@,
                })
            },
            final(self).tracks == old(self).tracks,
            final(self).device == old(self).device,
            final(self).inspecting == old(self).inspecting,
            final(self).formats == old(self).formats,
            old(self).wf() ==> final(self).wf(),
    {
        if entries.len() == 0 {
            let mut why = String::from_str("no WAV, AIFF, FLAC or MP3 files in ");
            why.append(name.as_str());
            self.phase = Phase::Failed(why);
            return None;
        }
        let id = self.claim(name, Kind::Archive);
        self.phase = Phase::Analysing;
        Some(id)
    }

    /// Put up the row for one entry of an archive, before it is extracted.
    ///
    /// The row goes up before the extraction and says so. A track inside a zip
    /// is decompressed before anything can measure it, and on a long WAV that
    /// is a second where the person is owed a line that moves.
    pub fn list_entry(&mut self, source: u32, entry: &Entry, audio: A) -> (slot: usize)
        ensures
            slot == old(self).tracks@.len(),
            final(self).tracks@.len() == old(self).tracks@.len() + 1,
            final(self).tracks@.take(slot as int) == old(self).tracks@,
            final(self).tracks@[slot as int].source == source,
            final(self).tracks@[slot as int].name@ == entry.name@,
            final(self).tracks@[slot as int].export_name is None,
            final(self).tracks@[slot as int].size == entry.size,
            final(self).tracks@[slot as int].stage is Extracting,
            final(self).tracks@[slot as int].included,
            final(self).tracks@[slot as int].report_json is None,
            final(self).tracks@[slot as int].audio == audio,
            final(self).phase == old(self).phase,
            final(self).sources == old(self).sources,
            final(self).device == old(self).device,
            final(self).inspecting == old(self).inspecting,
            final(self).formats == old(self).formats,
            final(self).stale == old(self).stale,
            final(self).next_id() == old(self).next_id(),
            old(self).wf() ==> final(self).wf(),
    {
        let slot = self.tracks.len();
        self.tracks.push(
            Track {
                source,
                name: entry.name.clone(),
                export_name: None,
                size: entry.size,
                stage: Stage::Extracting,
                included: true,
                report_json: None,
                audio,
            },
        );
        assert(self.tracks@.take(slot as int) =~= old(self).tracks@);
        slot
    }

    /// Register one track dropped on its own and put up its row.
    ///
    /// No listing and no extraction: the file is the audio.
    pub fn add_loose(&mut self, name: String, size: u64, audio: A) -> (index: usize)
        requires
            old(self).next_id() < u32::MAX,
        ensures
            index == old(self).tracks@.len(),
            final(self).sources@.len() == old(self).sources@.len() + 1,
            final(self).sources@.take(old(self).sources@.len() as int) == old(self).sources@,
            final(self).sources@.last().id == old(self).next_id(),
            final(self).sources@.last().name@ == name@,
            final(self).sources@.last().kind == Kind::Loose,
            final(self).next_id() == old(self).next_id() + 1,
            final(self).tracks@.len() == old(self).tracks@.len() + 1,
            final(self).tracks@.take(index as int) == old(self).tracks@,
            final(self).tracks@[index as int].source == old(self).next_id(),
            final(self).tracks@[index as int].name@ == name@,
            final(self).tracks@[index as int].export_name is None,
            final(self).tracks@[index as int].size == size,
            final(self).tracks@[index as int].stage is Waiting,
            final(self).tracks@[index as int].included,
            final(self).tracks@[index as int].report_json is None,
            final(self).tracks@[index as int].audio == audio,
            final(self).phase is Analysing,
            final(self).stale@ == (match old(self).phase {
                Phase::Ready { url, bytes } => old(self).stale@.push(url),
                _ => old(self).stale@,
            }),
            final(self).device == old(self).device,
            final(self).inspecting == old(self).inspecting,
            final(self).formats == old(self).formats,
            old(self).wf() ==> final(self).wf(),
    {
        let id = self.claim(name.clone(), Kind::Loose);
        let index = self.tracks.len();
        self.tracks.push(
            Track {
                source: id,
                name,
                export_name: None,
                size,
                stage: Stage::Waiting,
                included: true,
                report_json: None,
                audio,
            },
        );
        self.phase = Phase::Analysing;
        assert(self.tracks@.take(index as int) =~= old(self).tracks@);
        assert(self.sources@.take(old(self).sources@.len() as int) =~= old(self).sources@);
        index
    }

    /// Record the answer of measuring one track against its row.
    ///
    /// Both the name and the report text are what the build works from, and a
    /// track missing either can never reach an image, so it fails here rather
    /// than leaving a row that is ticked, dimmed and never written.
    pub fn finish_measuring(&mut self, index: usize, analysed: Result<Analysed, String>)
        ensures
            final(self).tracks@.len() == old(self).tracks@.len(),
            forall|j: int|
                0 <= j < old(self).tracks@.len() && j != index ==> #[trigger] final(self).tracks@[j]
                    == old(self).tracks@[j],
            index < old(self).tracks@.len() ==> {
                let before = old(self).tracks@[index as int];
                let after = final(self).tracks@[index as int];
                &&& after.source == before.source
                &&& after.name == before.name
                &&& after.size == before.size
                &&& after.included == before.included
                &&& after.audio == before.audio
                &&& match measurement(analysed) {
                    Ok(report) => {
                        &&& after.stage == Stage::Done(report)
                        &&& after.export_name == analysed->Ok_0.export_name
                        &&& after.report_json == analysed->Ok_0.report_json
                    },
                    Err(why) => {
                        &&& (after.stage matches Stage::Failed(w) && w@ == why)
                        &&& after.export_name == before.export_name
                        &&& after.report_json == before.report_json
                    },
                }
            },
            final(self).phase == old(self).phase,
            final(self).sources == old(self).sources,
            final(self).device == old(self).device,
            final(self).inspecting == old(self).inspecting,
            final(self).formats == old(self).formats,
            final(self).stale == old(self).stale,
            final(self).next_id() == old(self).next_id(),
            old(self).wf() && (index >= old(self).tracks@.len() || measurement(analysed) is Ok
                || old(self).tracks@[index as int].report_json is None) ==> final(self).wf(),
    {
        if index >= self.tracks.len() {
            return;
        }
        let stage = match analysed {
            Err(error) => Stage::Failed(error),
            Ok(a) => match a.report {
                Err(error) => {
                    let mut why = String::from_str("the report could not be read: ");
                    why.append(error.as_str());
                    Stage::Failed(why)
                },
                Ok(report) => match (a.export_name, a.report_json) {
                    (Some(export_name), Some(report_json)) => {
                        self.tracks[index].export_name = Some(export_name);
                        self.tracks[index].report_json = Some(report_json);
                        Stage::Done(report)
                    },
                    _ => Stage::Failed(
                        String::from_str("the analyser returned a report with no name"),
                    ),
                },
            },
        };
        self.tracks[index].stage = stage;
    }

    /// Decide what the image is built from, before anything is sent: the
    /// indices of the tracks on it, in order.
    ///
    /// Nothing ticked is a refusal rather than an empty image.
    pub fn begin_build(&mut self) -> (kept: Vec<usize>)
        ensures
            kept@ == kept_indices(standings(old(self).tracks@, old(self).device.format)),
            kept@.len() == 0 ==> (final(self).phase matches Phase::Failed(why) && why@
                == "no tracks are ticked for the image"@),
            kept@.len() > 0 ==> final(self).phase == (Phase::Building {
                gathered: 0,
                total: kept@.len() as usize,
            }),
            final(self).tracks == old(self).tracks,
            final(self).sources == old(self).sources,
            final(self).device == old(self).device,
            final(self).inspecting == old(self).inspecting,
            final(self).formats == old(self).formats,
            final(self).stale == old(self).stale,
            final(self).next_id() == old(self).next_id(),
    {
        let all = self.standing();
        let mut kept: Vec<usize> = Vec::new();
        let mut i: usize = 0;
        while i < all.len()
            invariant
                i <= all@.len(),
                kept@ == kept_indices(all@.take(i as int)),
            decreases all@.len() - i,
        {
            assert(all@.take(i + 1).drop_last() =~= all@.take(i as int));
            if all[i] == Standing::Kept {
                kept.push(i);
            }
            i = i + 1;
        }
        assert(all@.take(i as int) =~= all@);
        if kept.len() == 0 {
            self.phase = Phase::Failed(String::from_str("no tracks are ticked for the image"));
        } else {
            self.phase = Phase::Building { gathered: 0, total: kept.len() };
        }
        kept
    }

    /// Whether a track came from a loose source.
    pub fn is_loose(&self, id: u32) -> (r: bool)
        ensures
            r == belongs_to(self.sources@, Pick::Loose, id),
    {
        let mut i: usize = 0;
        while i < self.sources.len()
            invariant
                i <= self.sources@.len(),
                forall|k: int|
                    0 <= k < i ==> !(#[trigger] self.sources@[k].id == id && self.sources@[k].kind
                        == Kind::Loose),
            decreases self.sources@.len() - i,
        {
            if self.sources[i].id == id && self.sources[i].kind == Kind::Loose {
                return true;
            }
            i = i + 1;
        }
        false
    }

    /// Tracks from the sources a pick describes, and how many reach the image.
    pub fn count(&self, pick: Pick) -> (r: (usize, usize))
        ensures
            (r.0 as nat, r.1 as nat) == contribution(
                self.tracks@,
                standings(self.tracks@, self.device.format),
                self.sources@,
                pick,
            ),
    {
        let all = self.standing();
        let mut total: usize = 0;
        let mut kept: usize = 0;
        let mut i: usize = 0;
        while i < self.tracks.len()
            invariant
                i <= self.tracks@.len(),
                all@.len() == self.tracks@.len(),
                all@ == standings(self.tracks@, self.device.format),
                (total as nat, kept as nat) == contribution(
                    self.tracks@.take(i as int),
                    all@.take(i as int),
                    self.sources@,
                    pick,
                ),
                kept <= total <= i,
            decreases self.tracks@.len() - i,
        {
            assert(self.tracks@.take(i + 1).drop_last() =~= self.tracks@.take(i as int));
            assert(all@.take(i + 1).drop_last() =~= all@.take(i as int));
            let source = self.tracks[i].source;
            let mine = match pick {
                Pick::One(id) => source == id,
                Pick::Loose => self.is_loose(source),
            };
            if mine {
                total = total + 1;
                if all[i] == Standing::Kept {
                    kept = kept + 1;
                }
            }
            i = i + 1;
        }
        assert(self.tracks@.take(i as int) =~= self.tracks@);
        assert(all@.take(i as int) =~= all@);
        (total, kept)
    }

    /// Whether every row is ticked, and there is at least one.
    pub fn all_included(&self) -> (r: bool)
        ensures
            r == (self.tracks@.len() > 0 && forall|i: int|
                0 <= i < self.tracks@.len() ==> (#[trigger] self.tracks@[i]).included),
    {
        if self.tracks.len() == 0 {
            return false;
        }
        let mut i: usize = 0;
        while i < self.tracks.len()
            invariant
                i <= self.tracks@.len(),
                forall|j: int| 0 <= j < i ==> (#[trigger] self.tracks@[j]).included,
            decreases self.tracks@.len() - i,
        {
            if !self.tracks[i].included {
                return false;
            }
            i = i + 1;
        }
        true
    }

    /// Whether the sources answer the "source" column differently, which is
    /// when the column is worth drawing.
    pub fn labels_differ(&self) -> (r: bool)
        ensures
            r == exists|i: int, j: int|
                0 <= i < self.sources@.len() && 0 <= j < self.sources@.len() && label_of(
                    #[trigger] self.sources@[i],
                ) != label_of(#[trigger] self.sources@[j]),
    {
        if self.sources.len() == 0 {
            return false;
        }
        let first = self.sources[0].label();
        let first_chars = chars_of(first.as_str());
        let mut i: usize = 1;
        while i < self.sources.len()
            invariant
                1 <= i <= self.sources@.len(),
                first_chars@ == label_of(self.sources@[0]),
                forall|k: int| 0 <= k < i ==> label_of(#[trigger] self.sources@[k]) == label_of(
                    self.sources@[0],
                ),
            decreases self.sources@.len() - i,
        {
            let label = self.sources[i].label();
            let chars = chars_of(label.as_str());
            if !eq_chars(chars.as_slice(), first_chars.as_slice()) {
                return true;
            }
            i = i + 1;
        }
        false
    }

    /// What the image would come to if it were built right now.
    ///
    /// `image_bytes` holds what each track occupies, one per row; the page
    /// works it out because a re-encode is arithmetic over a track's duration.
    /// `per_second` is the databases' per-second charge over the tracks on the
    /// image, which the page works out from their durations for the same
    /// reason. The rest is here: which rows count, and what the builder makes of
    /// them.
    pub fn estimate(&self, image_bytes: &Vec<u64>, per_second: u64) -> (r: Estimate)
        requires
            image_bytes@.len() == self.tracks@.len(),
            (kept_audio(standings(self.tracks@, self.device.format), image_bytes@)
                + DATABASE_FIXED + per_second) * (100 + SLACK_PERCENT) <= u64::MAX,
        ensures
            r == estimate_of(
                kept_audio(standings(self.tracks@, self.device.format), image_bytes@),
                (DATABASE_FIXED + per_second) as nat,
            ),
    {
        let all = self.standing();
        let ghost bound = kept_audio(all@, image_bytes@);
        assert((bound + DATABASE_FIXED + per_second) * 112 <= u64::MAX);
        let mut audio: u64 = 0;
        let mut i: usize = 0;
        while i < all.len()
            invariant
                i <= all@.len(),
                all@.len() == image_bytes@.len(),
                bound == kept_audio(all@, image_bytes@),
                (bound + DATABASE_FIXED + per_second) * 112 <= u64::MAX,
                audio == kept_audio(all@.take(i as int), image_bytes@.take(i as int)),
            decreases all@.len() - i,
        {
            assert(all@.take(i + 1).drop_last() =~= all@.take(i as int));
            assert(image_bytes@.take(i + 1).drop_last() =~= image_bytes@.take(i as int));
            proof {
                lemma_kept_audio_prefix(all@, image_bytes@, i + 1);
            }
            if all[i] == Standing::Kept {
                audio = audio + image_bytes[i];
            }
            i = i + 1;
        }
        assert(all@.take(i as int) =~= all@);
        assert(image_bytes@.take(i as int) =~= image_bytes@);
        size_estimate(audio, DATABASE_FIXED + per_second)
    }
}

/// The audio of a prefix of the rows is no more than the audio of all of them.
proof fn lemma_kept_audio_prefix(standing: Seq<Standing>, bytes: Seq<u64>, n: int)
    requires
        standing.len() == bytes.len(),
        0 <= n <= standing.len(),
    ensures
        kept_audio(standing.take(n), bytes.take(n)) <= kept_audio(standing, bytes),
    decreases standing.len() - n,
{
    if n < standing.len() {
        lemma_kept_audio_prefix(standing, bytes, n + 1);
        assert(standing.take(n + 1).drop_last() =~= standing.take(n));
        assert(bytes.take(n + 1).drop_last() =~= bytes.take(n));
    } else {
        assert(standing.take(n) =~= standing);
        assert(bytes.take(n) =~= bytes);
    }
}

/// Unticking a measured row holds it off the image, and moves no row before
/// it.
pub proof fn unticking_holds_a_row_off<A>(tracks: Seq<Track<A>>, format: Format, i: int)
    requires
        0 <= i < tracks.len(),
        tracks[i].export_name is Some,
        tracks[i].report_json is Some,
    ensures
        standings(tracks.update(i, ticked(tracks[i], false)), format)[i] == Standing::Unticked,
        forall|j: int|
            0 <= j < i ==> #[trigger] standings(tracks.update(i, ticked(tracks[i], false)), format)[j]
                == standings(tracks, format)[j],
{
    let after = tracks.update(i, ticked(tracks[i], false));
    assert(after.take(i) =~= tracks.take(i));
    later_sources_never_move_earlier_rows(after, format, i);
    later_sources_never_move_earlier_rows(tracks, format, i);
    assert forall|j: int| 0 <= j < i implies #[trigger] standings(after, format)[j] == standings(
        tracks,
        format,
    )[j] by {
        assert(standings(after, format).take(i)[j] == standings(tracks, format).take(i)[j]);
    }
}

/// A removal takes every track its sources contributed, and only those, and
/// keeps the rest in their order.
pub proof fn removal_takes_exactly_what_it_picked<A>(
    tracks: Seq<Track<A>>,
    sources: Seq<Source>,
    pick: Pick,
)
    ensures
        forall|k: int|
            0 <= k < tracks_left(tracks, sources, pick).len() ==> !picked_id(
                sources,
                pick,
                (#[trigger] tracks_left(tracks, sources, pick)[k]).source,
            ),
        forall|j: int|
            0 <= j < tracks.len() && !picked_id(sources, pick, (#[trigger] tracks[j]).source)
                ==> tracks_left(tracks, sources, pick).contains(tracks[j]),
    decreases tracks.len(),
{
    if tracks.len() > 0 {
        let prefix = tracks.drop_last();
        removal_takes_exactly_what_it_picked(prefix, sources, pick);
        let before = tracks_left(prefix, sources, pick);
        let after = tracks_left(tracks, sources, pick);
        assert forall|j: int|
            0 <= j < tracks.len() && !picked_id(sources, pick, (#[trigger] tracks[j]).source)
                implies after.contains(tracks[j]) by {
            if j < prefix.len() {
                assert(prefix[j] == tracks[j]);
                let at = choose|at: int| 0 <= at < before.len() && before[at] == prefix[j];
                assert(after[at] == before[at]);
            } else {
                assert(after[after.len() - 1] == tracks[j]);
            }
        }
    }
}

/// Everything a removal leaves is something that was there.
proof fn lemma_left_came_from<A>(tracks: Seq<Track<A>>, sources: Seq<Source>, pick: Pick)
    ensures
        forall|k: int|
            0 <= k < tracks_left(tracks, sources, pick).len() ==> tracks.contains(
                #[trigger] tracks_left(tracks, sources, pick)[k],
            ),
    decreases tracks.len(),
{
    if tracks.len() > 0 {
        let prefix = tracks.drop_last();
        lemma_left_came_from(prefix, sources, pick);
        let before = tracks_left(prefix, sources, pick);
        let after = tracks_left(tracks, sources, pick);
        assert forall|k: int| 0 <= k < after.len() implies tracks.contains(#[trigger] after[k]) by {
            if k < before.len() {
                assert(after[k] == before[k]);
                let at = choose|at: int| 0 <= at < prefix.len() && prefix[at] == before[k];
                assert(tracks[at] == prefix[at]);
            } else {
                assert(after[k] == tracks[tracks.len() - 1]);
            }
        }
    }
}

/// What a removal leaves of the first `m` tracks is the start of what it
/// leaves of them all.
proof fn lemma_left_of_prefix<A>(tracks: Seq<Track<A>>, sources: Seq<Source>, pick: Pick, m: int)
    requires
        0 <= m <= tracks.len(),
    ensures
        tracks_left(tracks.take(m), sources, pick).len() <= tracks_left(tracks, sources, pick).len(),
        tracks_left(tracks.take(m), sources, pick) == tracks_left(tracks, sources, pick).take(
            tracks_left(tracks.take(m), sources, pick).len() as int,
        ),
    decreases tracks.len(),
{
    if m == tracks.len() {
        assert(tracks.take(m) =~= tracks);
        assert(tracks_left(tracks, sources, pick).take(
            tracks_left(tracks, sources, pick).len() as int,
        ) =~= tracks_left(tracks, sources, pick));
    } else {
        let prefix = tracks.drop_last();
        assert(prefix.take(m) =~= tracks.take(m));
        lemma_left_of_prefix(prefix, sources, pick, m);
        let n = tracks_left(tracks.take(m), sources, pick).len() as int;
        assert(tracks_left(prefix, sources, pick).take(n) =~= tracks_left(tracks, sources, pick).take(n));
    }
}

/// Removing a source lifts the exclusions its arrival caused: a row held off
/// only by names that came from the sources a removal takes is back on the
/// image once they are gone.
///
/// Row `i` keeps its source, it is measured, ticked and writable, and every
/// earlier row that claimed its name came from a picked source. What the
/// removal leaves has row `i` at the place the rows left before it put it,
/// and there it stands on the image.
pub proof fn removal_lifts_the_exclusions_it_caused<A>(
    tracks: Seq<Track<A>>,
    sources: Seq<Source>,
    pick: Pick,
    format: Format,
    i: int,
)
    requires
        0 <= i < tracks.len(),
        !picked_id(sources, pick, tracks[i].source),
        eligible(tracks[i], format),
        forall|j: int|
            0 <= j < i && eligible(#[trigger] tracks[j], format) && image_name_of(tracks[j], format)
                == image_name_of(tracks[i], format) ==> picked_id(sources, pick, tracks[j].source),
    ensures
        ({
            let left = tracks_left(tracks, sources, pick);
            let n = tracks_left(tracks.take(i), sources, pick).len() as int;
            &&& n < left.len()
            &&& left[n] == tracks[i]
            &&& standings(left, format)[n] == Standing::Kept
        }),
{
    let left = tracks_left(tracks, sources, pick);
    let before = tracks_left(tracks.take(i), sources, pick);
    let n = before.len() as int;
    assert(tracks.take(i + 1).drop_last() =~= tracks.take(i));
    assert(tracks.take(i + 1).last() == tracks[i]);
    assert(tracks_left(tracks.take(i + 1), sources, pick) == before.push(tracks[i]));
    lemma_left_of_prefix(tracks, sources, pick, i + 1);
    assert(left.take(n + 1) == before.push(tracks[i]));
    assert(left[n] == left.take(n + 1)[n]);
    lemma_left_came_from(tracks.take(i), sources, pick);
    removal_takes_exactly_what_it_picked(tracks.take(i), sources, pick);
    assert forall|k: int|
        0 <= k < n && eligible(#[trigger] left[k], format) implies image_name_of(left[k], format)
        != image_name_of(left[n], format) by {
        assert(left[k] == left.take(n + 1)[k]);
        assert(left[k] == before[k]);
        let at = choose|at: int| 0 <= at < tracks.take(i).len() && tracks.take(i)[at] == before[k];
        assert(tracks[at] == before[k]);
        assert(!picked_id(sources, pick, before[k].source));
    }
    assert(standing_at(left, format, n) == Standing::Kept);
}

/// Kept rows, among the first `n`, are no more than the measured rows among
/// them.
proof fn lemma_kept_at_most_done<A>(tracks: Seq<Track<A>>, format: Format, n: int)
    requires
        measured_means_done(tracks),
        0 <= n <= tracks.len(),
    ensures
        count_standing(standings(tracks, format).take(n), Standing::Kept) <= done_count(
            tracks.take(n),
        ),
    decreases n,
{
    if n > 0 {
        lemma_kept_at_most_done(tracks, format, n - 1);
        let all = standings(tracks, format);
        assert(all.take(n).drop_last() =~= all.take(n - 1));
        assert(tracks.take(n).drop_last() =~= tracks.take(n - 1));
        assert(all.take(n).last() == standing_at(tracks, format, n - 1));
        assert(tracks.take(n).last() == tracks[n - 1]);
        if standing_at(tracks, format, n - 1) == Standing::Kept {
            assert(tracks[n - 1].report_json is Some);
        }
    }
}

/// Every row on the image has been measured, so the rows on the image are
/// never more than the rows measured.
pub proof fn kept_rows_are_measured<A>(run: Run<A>)
    requires
        run.wf(),
    ensures
        forall|i: int|
            0 <= i < run.tracks@.len() && #[trigger] standings(run.tracks@, run.device.format)[i]
                == Standing::Kept ==> run.tracks@[i].stage is Done,
        count_standing(standings(run.tracks@, run.device.format), Standing::Kept) <= done_count(
            run.tracks@,
        ),
{
    let tracks = run.tracks@;
    let format = run.device.format;
    assert forall|i: int|
        0 <= i < tracks.len() && #[trigger] standings(tracks, format)[i] == Standing::Kept
            implies tracks[i].stage is Done by {
        assert(standing_at(tracks, format, i) == Standing::Kept);
        assert(tracks[i].report_json is Some);
    }
    lemma_kept_at_most_done(tracks, format, tracks.len() as int);
    assert(standings(tracks, format).take(tracks.len() as int) =~= standings(tracks, format));
    assert(tracks.take(tracks.len() as int) =~= tracks);
}

/// An id is never handed out twice, even after a removal: every id a source
/// holds is below the one the run gives next. A claim gives exactly that next
/// id and moves it up by one, and no other method moves it at all, so an id a
/// removal frees stays below every id given after it.
pub proof fn ids_are_never_reused<A>(run: Run<A>, k: int)
    requires
        run.wf(),
        0 <= k < run.sources@.len(),
    ensures
        run.sources@[k].id < run.next_id(),
{
}

/// A measured, ticked row is held off as unwritable exactly when the name it
/// would land under does not end in `wav`, `aiff`, `aif`, `flac` or `mp3`,
/// read without regard to case. An `.mp4` never reaches the image, and a row on
/// the image always ends in one of the five.
pub proof fn only_the_five_spellings_reach_the_image<A>(
    tracks: Seq<Track<A>>,
    format: Format,
    i: int,
)
    requires
        0 <= i < tracks.len(),
        tracks[i].export_name is Some,
        tracks[i].report_json is Some,
        tracks[i].included,
    ensures
        ({
            let name = renamed(format, tracks[i].export_name.unwrap()@);
            let five = crate::naming::extension_after_dot(name) matches Some(e) && ({
                let e = crate::text::lower_all(e);
                ||| e == seq!['w', 'a', 'v']
                ||| e == seq!['a', 'i', 'f', 'f']
                ||| e == seq!['a', 'i', 'f']
                ||| e == seq!['f', 'l', 'a', 'c']
                ||| e == seq!['m', 'p', '3']
            });
            &&& standings(tracks, format)[i] == Standing::Unwritable <==> !five
            &&& standings(tracks, format)[i] == Standing::Kept ==> five
        }),
{
    assert(standings(tracks, format)[i] == standing_at(tracks, format, i));
}

/// The rows a build takes, over any standing: each is a row on the image,
/// they come in the order of the table, and every row on the image is among
/// them, once.
proof fn lemma_kept_indices(standing: Seq<Standing>)
    requires
        standing.len() <= usize::MAX,
    ensures
        forall|k: int|
            0 <= k < kept_indices(standing).len() ==> (#[trigger] kept_indices(standing)[k])
                < standing.len() && standing[kept_indices(standing)[k] as int] == Standing::Kept,
        forall|k: int, l: int|
            0 <= k < l < kept_indices(standing).len() ==> #[trigger] kept_indices(standing)[k]
                < #[trigger] kept_indices(standing)[l],
        forall|i: int|
            0 <= i < standing.len() && #[trigger] standing[i] == Standing::Kept ==> kept_indices(
                standing,
            ).contains(i as usize),
        kept_indices(standing).len() == count_standing(standing, Standing::Kept),
    decreases standing.len(),
{
    if standing.len() > 0 {
        let prefix = standing.drop_last();
        lemma_kept_indices(prefix);
        let before = kept_indices(prefix);
        let after = kept_indices(standing);
        assert forall|k: int| 0 <= k < before.len() implies after[k] == before[k] by {}
        if standing.last() == Standing::Kept {
            assert(after[before.len() as int] == (standing.len() - 1) as usize);
            assert(after[before.len() as int] == prefix.len());
        }
        assert forall|k: int|
            0 <= k < after.len() implies (#[trigger] after[k]) < standing.len() && standing[after[k] as int]
            == Standing::Kept by {
            if k < before.len() {
                assert(prefix[before[k] as int] == standing[before[k] as int]);
            }
        }
        assert forall|i: int|
            0 <= i < standing.len() && #[trigger] standing[i] == Standing::Kept implies after.contains(
            i as usize,
        ) by {
            if i < prefix.len() {
                assert(prefix[i] == standing[i]);
                let at = choose|at: int| 0 <= at < before.len() && before[at] == i as usize;
                assert(after[at] == before[at]);
            } else {
                assert(after[after.len() - 1] == i as usize);
            }
        }
    }
}

/// A build takes exactly the rows on the image: every index it returns is a
/// row that stands kept, and so one that is measured, ticked and named; the
/// indices follow the table's order; and every kept row is among them, so
/// there are as many as there are rows on the image.
pub proof fn a_build_takes_exactly_the_kept_rows<A>(tracks: Seq<Track<A>>, format: Format)
    requires
        tracks.len() <= usize::MAX,
    ensures
        ({
            let all = standings(tracks, format);
            let kept = kept_indices(all);
            &&& forall|k: int|
                0 <= k < kept.len() ==> {
                    let at = #[trigger] kept[k] as int;
                    &&& 0 <= at < tracks.len()
                    &&& all[at] == Standing::Kept
                    &&& tracks[at].export_name is Some
                    &&& tracks[at].report_json is Some
                    &&& tracks[at].included
                }
            &&& forall|k: int, l: int| 0 <= k < l < kept.len() ==> #[trigger] kept[k] < #[trigger] kept[l]
            &&& forall|i: int|
                0 <= i < tracks.len() && #[trigger] all[i] == Standing::Kept ==> kept.contains(
                    i as usize,
                )
            &&& kept.len() == count_standing(all, Standing::Kept)
        }),
{
    let all = standings(tracks, format);
    lemma_kept_indices(all);
    let kept = kept_indices(all);
    assert forall|k: int| 0 <= k < kept.len() implies {
        let at = #[trigger] kept[k] as int;
        &&& 0 <= at < tracks.len()
        &&& all[at] == Standing::Kept
        &&& tracks[at].export_name is Some
        &&& tracks[at].report_json is Some
        &&& tracks[at].included
    } by {
        let at = kept[k] as int;
        assert(standing_at(tracks, format, at) == Standing::Kept);
    }
}

/// The estimate's audio is made of the rows on the image and nothing else: a
/// row that is not on the image can hold any number of bytes without moving
/// it, and a row that is on it moves it by exactly what its bytes move by.
pub proof fn the_estimate_counts_only_the_kept_rows(
    standing: Seq<Standing>,
    bytes: Seq<u64>,
    j: int,
    b: u64,
)
    requires
        standing.len() == bytes.len(),
        0 <= j < standing.len(),
    ensures
        standing[j] != Standing::Kept ==> kept_audio(standing, bytes.update(j, b)) == kept_audio(
            standing,
            bytes,
        ),
        standing[j] == Standing::Kept ==> kept_audio(standing, bytes.update(j, b)) + bytes[j]
            == kept_audio(standing, bytes) + b,
    decreases standing.len(),
{
    let changed = bytes.update(j, b);
    if j == standing.len() - 1 {
        assert(changed.drop_last() =~= bytes.drop_last());
    } else {
        the_estimate_counts_only_the_kept_rows(standing.drop_last(), bytes.drop_last(), j, b);
        assert(changed.drop_last() =~= bytes.drop_last().update(j, b));
        assert(standing.drop_last()[j] == standing[j]);
    }
}

/// With nothing on the image there is no audio to estimate.
pub proof fn nothing_kept_is_no_audio(standing: Seq<Standing>, bytes: Seq<u64>)
    requires
        forall|k: int| 0 <= k < standing.len() ==> #[trigger] standing[k] != Standing::Kept,
    ensures
        kept_audio(standing, bytes) == 0,
    decreases standing.len(),
{
    if standing.len() > 0 && bytes.len() == standing.len() {
        assert forall|k: int| 0 <= k < standing.drop_last().len() implies #[trigger] standing.drop_last()[k]
            != Standing::Kept by {
            assert(standing.drop_last()[k] == standing[k]);
        }
        nothing_kept_is_no_audio(standing.drop_last(), bytes.drop_last());
        assert(standing[standing.len() - 1] != Standing::Kept);
    }
}

/// What a source contributed reaches the image only through its kept rows:
/// the rows of other sources do not move its count whatever they stand at;
/// one of its own rows that is off the image counts towards the total and not
/// towards the image, whichever reason holds it off; and one of its rows that
/// leaves the image takes exactly one from the second number. The second
/// number is never more than the first.
pub proof fn a_count_reaches_the_image_only_through_kept_rows<A>(
    tracks: Seq<Track<A>>,
    standing: Seq<Standing>,
    sources: Seq<Source>,
    pick: Pick,
    j: int,
    s: Standing,
)
    requires
        standing.len() == tracks.len(),
        0 <= j < tracks.len(),
    ensures
        ({
            let before = contribution(tracks, standing, sources, pick);
            let after = contribution(tracks, standing.update(j, s), sources, pick);
            let mine = belongs_to(sources, pick, tracks[j].source);
            &&& !mine ==> after == before
            &&& mine && standing[j] != Standing::Kept && s != Standing::Kept ==> after == before
            &&& mine && standing[j] == Standing::Kept && s != Standing::Kept ==> after.0 == before.0
                && after.1 + 1 == before.1
            &&& before.1 <= before.0
        }),
    decreases tracks.len(),
{
    let changed = standing.update(j, s);
    if j == tracks.len() - 1 {
        assert(changed.drop_last() =~= standing.drop_last());
        if tracks.len() > 1 {
            a_count_reaches_the_image_only_through_kept_rows(
                tracks.drop_last(),
                standing.drop_last(),
                sources,
                pick,
                0,
                s,
            );
        }
    } else {
        a_count_reaches_the_image_only_through_kept_rows(
            tracks.drop_last(),
            standing.drop_last(),
            sources,
            pick,
            j,
            s,
        );
        assert(changed.drop_last() =~= standing.drop_last().update(j, s));
        assert(standing.drop_last()[j] == standing[j]);
        assert(tracks.drop_last()[j] == tracks[j]);
    }
}

} // verus!
