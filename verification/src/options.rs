//! What goes on the stick, as the form fills it in.
//!
//! The analysis settings themselves are numbers with fractions in them and live
//! with the form; what is here is the part of the form that decides names and
//! databases: the audio format, the databases written, and the volume.

use crate::text::{chars_of, eq_chars, last_index, last_index_of, lemma_last_index_of, push_char, slice_of, string_of};
use vstd::prelude::*;

verus! {

/// Which key profile the analysis correlates chroma against.
#[derive(Clone, Copy, Debug, PartialEq, Eq, Structural)]
pub enum Profile {
    Krumhansl,
    Temperley,
}

impl Profile {
    /// What the form calls it.
    pub fn label(self) -> (r: &'static str)
        ensures
            r@ == (match self {
                Profile::Krumhansl => "Krumhansl"@,
                Profile::Temperley => "Temperley"@,
            }),
    {
        match self {
            Profile::Krumhansl => "Krumhansl",
            Profile::Temperley => "Temperley",
        }
    }
}

/// The audio on the image, as opposed to the audio in the archive.
///
/// `Source` copies the file across untouched. The other three are re-encodes,
/// and whether a build can perform one is a property of the analysis module it
/// links rather than of this form.
#[derive(Clone, Copy, Debug, PartialEq, Eq, Structural)]
pub enum Format {
    Source,
    Wav,
    Flac,
    Mp3,
}

/// The extension a re-encoding format writes, as characters.
pub open spec fn extension_of(format: Format) -> Option<Seq<char>> {
    match format {
        Format::Source => None,
        Format::Wav => Some(seq!['w', 'a', 'v']),
        Format::Flac => Some(seq!['f', 'l', 'a', 'c']),
        Format::Mp3 => Some(seq!['m', 'p', '3']),
    }
}

/// What a track the analyser named `name` is written as under `format`.
///
/// `Source` keeps the name. Every other format replaces whatever follows the
/// last dot with its own extension, or adds one where there is no dot.
pub open spec fn renamed(format: Format, name: Seq<char>) -> Seq<char> {
    match extension_of(format) {
        None => name,
        Some(extension) => {
            let dot = last_index_of(name, '.');
            if dot >= 0 {
                name.take(dot) + seq!['.'] + extension
            } else {
                name + seq!['.'] + extension
            }
        },
    }
}

/// The wire name of each format, as the worker knows it.
pub open spec fn wire_of(format: Format) -> Seq<char> {
    match format {
        Format::Source => seq!['s', 'o', 'u', 'r', 'c', 'e'],
        Format::Wav => seq!['w', 'a', 'v'],
        Format::Flac => seq!['f', 'l', 'a', 'c'],
        Format::Mp3 => seq!['m', 'p', '3'],
    }
}

impl Format {
    /// Every format the form draws, available or not, in the order it draws them.
    pub const ALL: [Format; 4] = [Format::Source, Format::Wav, Format::Flac, Format::Mp3];

    /// The name the worker knows this format by.
    pub fn wire(self) -> (r: &'static str)
        ensures
            r@ == wire_of(self),
    {
        proof {
            reveal_strlit("source");
            reveal_strlit("wav");
            reveal_strlit("flac");
            reveal_strlit("mp3");
        }
        match self {
            Format::Source => "source",
            Format::Wav => "wav",
            Format::Flac => "flac",
            Format::Mp3 => "mp3",
        }
    }

    /// What the form calls it.
    pub fn label(self) -> (r: &'static str)
        ensures
            r@ == (match self {
                Format::Source => "As supplied"@,
                Format::Wav => "WAV"@,
                Format::Flac => "FLAC"@,
                Format::Mp3 => "MP3"@,
            }),
    {
        match self {
            Format::Source => "As supplied",
            Format::Wav => "WAV",
            Format::Flac => "FLAC",
            Format::Mp3 => "MP3",
        }
    }

    /// The sentence the form says under it.
    pub fn detail(self) -> (r: &'static str)
        ensures
            r@ == (match self {
                Format::Source =>
                    "The file as the archive held it, copied rather than re-encoded. The only one that cannot lose anything, and the only one that needs no encoder."@,
                Format::Wav =>
                    "Uncompressed, and what every player reads without argument. Around twice the FLAC, so an image that held a release holds half of one."@,
                Format::Flac =>
                    "Lossless and about half the WAV. A CDJ-3000 and Engine DJ read it; a CDJ-2000 does not."@,
                Format::Mp3 =>
                    "Lossy, and a re-encode of whatever the archive held rather than of the master. A second generation of loss on anything that arrived as an MP3."@,
            }),
    {
        match self {
            Format::Source =>
                "The file as the archive held it, copied rather than re-encoded. The only one that cannot lose anything, and the only one that needs no encoder.",
            Format::Wav =>
                "Uncompressed, and what every player reads without argument. Around twice the FLAC, so an image that held a release holds half of one.",
            Format::Flac =>
                "Lossless and about half the WAV. A CDJ-3000 and Engine DJ read it; a CDJ-2000 does not.",
            Format::Mp3 =>
                "Lossy, and a re-encode of whatever the archive held rather than of the master. A second generation of loss on anything that arrived as an MP3.",
        }
    }

    /// The extension a track lands under once this format has had its say.
    ///
    /// `None` for `Source`, which keeps whatever the archive called it.
    pub fn extension(self) -> (r: Option<&'static str>)
        ensures
            match r {
                Some(e) => extension_of(self) == Some(e@),
                None => extension_of(self) is None,
            },
    {
        proof {
            reveal_strlit("wav");
            reveal_strlit("flac");
            reveal_strlit("mp3");
        }
        match self {
            Format::Source => None,
            Format::Wav => Some("wav"),
            Format::Flac => Some("flac"),
            Format::Mp3 => Some("mp3"),
        }
    }

    /// What the device writes a track under: the name both databases store, and
    /// the name the page shows against the row.
    pub fn rename(self, export_name: &str) -> (r: String)
        ensures
            r@ == renamed(self, export_name@),
    {
        let name = chars_of(export_name);
        proof {
            lemma_last_index_of(name@, '.');
        }
        match self.extension() {
            None => string_of(name.as_slice()),
            Some(extension) => {
                let mut out = match last_index(&name, '.') {
                    Some(dot) => string_of(slice_of(&name, 0, dot).as_slice()),
                    None => string_of(name.as_slice()),
                };
                proof {
                    if last_index_of(name@, '.') >= 0 {
                        assert(name@.subrange(0, last_index_of(name@, '.')) =~= name@.take(
                            last_index_of(name@, '.'),
                        ));
                    }
                }
                push_char(&mut out, '.');
                out.append(extension);
                out
            },
        }
    }
}

/// The databases written onto the image.
#[derive(Clone, Copy, Debug, PartialEq, Eq, Structural)]
pub enum Target {
    Rekordbox,
    Engine,
    Both,
}

impl Target {
    /// The name the worker knows this target by.
    pub fn wire(self) -> (r: &'static str)
        ensures
            r@ == (match self {
                Target::Rekordbox => "rekordbox"@,
                Target::Engine => "engine"@,
                Target::Both => "both"@,
            }),
    {
        match self {
            Target::Rekordbox => "rekordbox",
            Target::Engine => "engine",
            Target::Both => "both",
        }
    }

    /// What the form calls it.
    pub fn label(self) -> (r: &'static str)
        ensures
            r@ == (match self {
                Target::Rekordbox => "Pioneer"@,
                Target::Engine => "Denon"@,
                Target::Both => "Both"@,
            }),
    {
        match self {
            Target::Rekordbox => "Pioneer",
            Target::Engine => "Denon",
            Target::Both => "Both",
        }
    }

    /// The sentence the form says under it.
    pub fn detail(self) -> (r: &'static str)
        ensures
            r@ == (match self {
                Target::Rekordbox => "PIONEER/ only: export.pdb and the ANLZ files a CDJ reads."@,
                Target::Engine =>
                    "Engine Library/ only: schema 2.21.2, which Engine DJ 2 and 3 read."@,
                Target::Both =>
                    "Both databases on one image. They live in separate directories, neither player reads the other's, and the audio is shared."@,
            }),
    {
        match self {
            Target::Rekordbox => "PIONEER/ only: export.pdb and the ANLZ files a CDJ reads.",
            Target::Engine => "Engine Library/ only: schema 2.21.2, which Engine DJ 2 and 3 read.",
            Target::Both =>
                "Both databases on one image. They live in separate directories, neither player reads the other's, and the audio is shared.",
        }
    }
}

/// What goes on the stick, as opposed to what is measured.
#[derive(Clone, Debug)]
pub struct Device {
    /// Volume name, which is what a player shows in its source list. FAT32
    /// allows eleven characters.
    pub label: String,
    pub playlist: String,
    /// Recorded against every track. A field rather than a clock reading, so the
    /// same archive built twice is the same image twice.
    pub date: String,
    pub target: Target,
    /// Whether to draw the seven figures per track. Roughly doubles the work, so
    /// it is a choice rather than a default.
    pub figures: bool,
    /// What the audio is written as.
    pub format: Format,
}

/// The volume name as a stick stores it: what was typed, cut to the eleven
/// characters FAT32 allows.
pub fn volume_label(typed: &str) -> (r: String)
    ensures
        r@ == (if typed@.len() <= 11 { typed@ } else { typed@.take(11) }),
{
    let chars = chars_of(typed);
    let n: usize = if chars.len() <= 11 { chars.len() } else { 11 };
    let kept = slice_of(&chars, 0, n);
    assert(chars@.subrange(0, n as int) =~= (if typed@.len() <= 11 { typed@ } else { typed@.take(11) }));
    string_of(kept.as_slice())
}

/// Whether a device is the one the form starts from: a volume called `MUSIC`,
/// one playlist of everything, both databases, figures drawn, and the audio as
/// it was supplied.
pub open spec fn is_default_device(d: Device) -> bool {
    &&& d.label@ == "MUSIC"@
    &&& d.playlist@ == "All tracks"@
    &&& d.date@ == "2026-01-01"@
    &&& d.target == Target::Both
    &&& d.figures
    &&& d.format == Format::Source
}

impl Default for Device {
    fn default() -> (d: Device)
        ensures
            is_default_device(d),
    {
        Device {
            label: String::from_str("MUSIC"),
            playlist: String::from_str("All tracks"),
            date: String::from_str("2026-01-01"),
            target: Target::Both,
            figures: true,
            format: Format::Source,
        }
    }
}

impl Device {
    /// Whether this is the device the form starts from, which is what the page
    /// stores nothing for: a form put back to the defaults forgets itself.
    pub fn is_default(&self) -> (r: bool)
        ensures
            r == is_default_device(*self),
    {
        let label = chars_of(self.label.as_str());
        let playlist = chars_of(self.playlist.as_str());
        let date = chars_of(self.date.as_str());
        let music = chars_of("MUSIC");
        let all_tracks = chars_of("All tracks");
        let day = chars_of("2026-01-01");
        eq_chars(label.as_slice(), music.as_slice()) && eq_chars(
            playlist.as_slice(),
            all_tracks.as_slice(),
        ) && eq_chars(date.as_slice(), day.as_slice()) && self.target == Target::Both
            && self.figures && self.format == Format::Source
    }
}

/// Renaming twice is renaming once: a name the format has had its say on keeps
/// its extension when it is asked again.
pub proof fn rename_is_idempotent(format: Format, name: Seq<char>)
    ensures
        renamed(format, renamed(format, name)) == renamed(format, name),
{
    match extension_of(format) {
        None => {},
        Some(extension) => {
            let once = renamed(format, name);
            let dot = last_index_of(name, '.');
            let stem = if dot >= 0 { name.take(dot) } else { name };
            assert(once =~= stem + seq!['.'] + extension);
            assert(!extension.contains('.'));
            lemma_last_index_of(once, '.');
            let d = last_index_of(once, '.');
            assert(once[stem.len() as int] == '.');
            assert(d == stem.len() as int) by {
                if d < stem.len() as int {
                    assert(once[stem.len() as int] == '.');
                } else if d > stem.len() as int {
                    assert(once[d] == extension[d - stem.len() - 1]);
                }
            }
            assert(once.take(d) =~= stem);
        },
    }
}

} // verus!
