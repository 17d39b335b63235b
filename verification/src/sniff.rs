//! What a file's first bytes say it is.
//!
//! An extension is a claim and a header is evidence. A track pulled off a video
//! site arrives named whatever the downloader felt like, an archive saved from a
//! mail client arrives as `.zip.bin`, and a file renamed by hand arrives lying.
//! All three are decided here instead of by the characters after the last dot.

use vstd::prelude::*;

verus! {

#[derive(Clone, Copy, Debug, PartialEq, Eq, Structural)]
pub enum Sniff {
    Zip,
    Wav,
    Aiff,
    Flac,
    Mp3,
    /// MP4, M4A, MOV: anything whose fourth word is `ftyp`.
    Iso,
    /// WebM and Matroska, which share their magic.
    Matroska,
    Ogg,
    /// Nothing the analyser has a reader for.
    Unknown,
}

/// Whether `tag` sits in `head` starting at byte `from`.
pub open spec fn tagged(head: Seq<u8>, from: int, tag: Seq<u8>) -> bool {
    head.len() >= from + tag.len() && head.subrange(from, from + tag.len()) == tag
}

pub open spec fn tag_zip_local() -> Seq<u8> {
    seq![0x50u8, 0x4B, 0x03, 0x04]
}

pub open spec fn tag_zip_empty() -> Seq<u8> {
    seq![0x50u8, 0x4B, 0x05, 0x06]
}

pub open spec fn tag_zip_spanned() -> Seq<u8> {
    seq![0x50u8, 0x4B, 0x07, 0x08]
}

pub open spec fn tag_riff() -> Seq<u8> {
    seq![0x52u8, 0x49, 0x46, 0x46]
}

pub open spec fn tag_wave() -> Seq<u8> {
    seq![0x57u8, 0x41, 0x56, 0x45]
}

pub open spec fn tag_form() -> Seq<u8> {
    seq![0x46u8, 0x4F, 0x52, 0x4D]
}

pub open spec fn tag_aiff() -> Seq<u8> {
    seq![0x41u8, 0x49, 0x46, 0x46]
}

pub open spec fn tag_aifc() -> Seq<u8> {
    seq![0x41u8, 0x49, 0x46, 0x43]
}

pub open spec fn tag_flac() -> Seq<u8> {
    seq![0x66u8, 0x4C, 0x61, 0x43]
}

pub open spec fn tag_ogg() -> Seq<u8> {
    seq![0x4Fu8, 0x67, 0x67, 0x53]
}

pub open spec fn tag_matroska() -> Seq<u8> {
    seq![0x1Au8, 0x45, 0xDF, 0xA3]
}

pub open spec fn tag_ftyp() -> Seq<u8> {
    seq![0x66u8, 0x74, 0x79, 0x70]
}

pub open spec fn tag_id3() -> Seq<u8> {
    seq![0x49u8, 0x44, 0x33]
}

/// What a file's first bytes are, by the magic each format opens with, in the
/// order the checks are made.
pub open spec fn sniffed(head: Seq<u8>) -> Sniff {
    if tagged(head, 0, tag_zip_local()) || tagged(head, 0, tag_zip_empty()) || tagged(head, 0, tag_zip_spanned()) {
        Sniff::Zip
    } else if tagged(head, 0, tag_riff()) && tagged(head, 8, tag_wave()) {
        Sniff::Wav
    } else if tagged(head, 0, tag_form()) && (tagged(head, 8, tag_aiff()) || tagged(head, 8, tag_aifc())) {
        Sniff::Aiff
    } else if tagged(head, 0, tag_flac()) {
        Sniff::Flac
    } else if tagged(head, 0, tag_ogg()) {
        Sniff::Ogg
    } else if tagged(head, 0, tag_matroska()) {
        Sniff::Matroska
    } else if tagged(head, 4, tag_ftyp()) {
        Sniff::Iso
    } else if tagged(head, 0, tag_id3()) {
        Sniff::Mp3
    } else if head.len() >= 2 && head[0] == 0xFF && head[1] & 0xE0 == 0xE0 {
        Sniff::Mp3
    } else {
        Sniff::Unknown
    }
}

/// The extension a file holding these bytes carries when nothing is wrong, for
/// the four formats the device can write.
pub open spec fn preferred_of(sniff: Sniff) -> Option<Seq<char>> {
    match sniff {
        Sniff::Wav => Some(seq!['w', 'a', 'v']),
        Sniff::Aiff => Some(seq!['a', 'i', 'f', 'f']),
        Sniff::Flac => Some(seq!['f', 'l', 'a', 'c']),
        Sniff::Mp3 => Some(seq!['m', 'p', '3']),
        _ => None,
    }
}

/// The extensions already right for these bytes.
pub open spec fn acceptable_of(sniff: Sniff) -> Seq<Seq<char>> {
    match sniff {
        Sniff::Wav => seq![seq!['w', 'a', 'v']],
        Sniff::Aiff => seq![seq!['a', 'i', 'f', 'f'], seq!['a', 'i', 'f']],
        Sniff::Flac => seq![seq!['f', 'l', 'a', 'c']],
        Sniff::Mp3 => seq![seq!['m', 'p', '3']],
        _ => Seq::empty(),
    }
}

impl Sniff {
    /// Whether this is something to hand to `analyze` rather than to open.
    pub fn is_audio(self) -> (r: bool)
        ensures
            r == !(self == Sniff::Zip || self == Sniff::Unknown),
    {
        !matches!(self, Sniff::Zip | Sniff::Unknown)
    }

    /// What a file holding these bytes is called when nothing is wrong.
    ///
    /// Only the four the device can write. Renaming an Ogg to `.ogg` would be
    /// true and would change nothing: the databases have no entry for it, so it
    /// is held off the image under either name.
    pub fn preferred(self) -> (r: Option<&'static str>)
        ensures
            match r {
                Some(e) => preferred_of(self) == Some(e@),
                None => preferred_of(self) is None,
            },
    {
        proof {
            reveal_strlit("wav");
            reveal_strlit("aiff");
            reveal_strlit("flac");
            reveal_strlit("mp3");
        }
        match self {
            Sniff::Wav => Some("wav"),
            Sniff::Aiff => Some("aiff"),
            Sniff::Flac => Some("flac"),
            Sniff::Mp3 => Some("mp3"),
            Sniff::Ogg | Sniff::Iso | Sniff::Matroska | Sniff::Zip | Sniff::Unknown => None,
        }
    }

    /// The names already right for these bytes, which are left alone.
    ///
    /// `.aif` and `.aiff` are the same file to everything that reads either, so
    /// an archive written in the first spelling stays in it.
    pub fn acceptable(self) -> (r: Vec<Vec<char>>)
        ensures
            r@.len() == acceptable_of(self).len(),
            forall|i: int| 0 <= i < r@.len() ==> (#[trigger] r@[i])@ == acceptable_of(self)[i],
    {
        let mut r: Vec<Vec<char>> = Vec::new();
        match self {
            Sniff::Wav => {
                r.push(vec!['w', 'a', 'v']);
            },
            Sniff::Aiff => {
                r.push(vec!['a', 'i', 'f', 'f']);
                r.push(vec!['a', 'i', 'f']);
            },
            Sniff::Flac => {
                r.push(vec!['f', 'l', 'a', 'c']);
            },
            Sniff::Mp3 => {
                r.push(vec!['m', 'p', '3']);
            },
            Sniff::Ogg | Sniff::Iso | Sniff::Matroska | Sniff::Zip | Sniff::Unknown => {},
        }
        proof {
            match self {
                Sniff::Wav => {
                    assert(r@[0]@ =~= seq!['w', 'a', 'v']);
                },
                Sniff::Aiff => {
                    assert(r@[0]@ =~= seq!['a', 'i', 'f', 'f']);
                    assert(r@[1]@ =~= seq!['a', 'i', 'f']);
                },
                Sniff::Flac => {
                    assert(r@[0]@ =~= seq!['f', 'l', 'a', 'c']);
                },
                Sniff::Mp3 => {
                    assert(r@[0]@ =~= seq!['m', 'p', '3']);
                },
                _ => {},
            }
        }
        r
    }
}

/// Whether `tag` sits in `head` starting at byte `from`.
fn at(head: &[u8], from: usize, tag: &[u8]) -> (r: bool)
    ensures
        r == tagged(head@, from as int, tag@),
{
    if head.len() < tag.len() || head.len() - tag.len() < from {
        return false;
    }
    let n = head.len();
    let mut i: usize = 0;
    while i < tag.len()
        invariant
            head@.len() >= from + tag@.len(),
            head@.len() <= usize::MAX,
            i <= tag@.len(),
            forall|j: int| 0 <= j < i ==> head@[from + j] == tag@[j],
        decreases tag@.len() - i,
    {
        if head[from + i] != tag[i] {
            assert(head@.subrange(from as int, from + tag@.len())[i as int] != tag@[i as int]);
            return false;
        }
        i = i + 1;
    }
    assert(head@.subrange(from as int, from + tag@.len()) =~= tag@);
    true
}

/// What a file's first bytes are, by the magic each format opens with.
pub fn classify(head: &[u8]) -> (r: Sniff)
    ensures
        r == sniffed(head@),
{
    // Every zip starts `PK`, and the three that follow separate a local entry
    // from an empty archive from a spanned one.
    let zip_local: [u8; 4] = [0x50, 0x4B, 0x03, 0x04];
    let zip_empty: [u8; 4] = [0x50, 0x4B, 0x05, 0x06];
    let zip_spanned: [u8; 4] = [0x50, 0x4B, 0x07, 0x08];
    let riff: [u8; 4] = [0x52, 0x49, 0x46, 0x46];
    let wave: [u8; 4] = [0x57, 0x41, 0x56, 0x45];
    let form: [u8; 4] = [0x46, 0x4F, 0x52, 0x4D];
    let aiff: [u8; 4] = [0x41, 0x49, 0x46, 0x46];
    let aifc: [u8; 4] = [0x41, 0x49, 0x46, 0x43];
    let flac: [u8; 4] = [0x66, 0x4C, 0x61, 0x43];
    let ogg: [u8; 4] = [0x4F, 0x67, 0x67, 0x53];
    let matroska: [u8; 4] = [0x1A, 0x45, 0xDF, 0xA3];
    let ftyp: [u8; 4] = [0x66, 0x74, 0x79, 0x70];
    let id3: [u8; 3] = [0x49, 0x44, 0x33];
    assert(zip_local@ =~= tag_zip_local());
    assert(zip_empty@ =~= tag_zip_empty());
    assert(zip_spanned@ =~= tag_zip_spanned());
    assert(riff@ =~= tag_riff());
    assert(wave@ =~= tag_wave());
    assert(form@ =~= tag_form());
    assert(aiff@ =~= tag_aiff());
    assert(aifc@ =~= tag_aifc());
    assert(flac@ =~= tag_flac());
    assert(ogg@ =~= tag_ogg());
    assert(matroska@ =~= tag_matroska());
    assert(ftyp@ =~= tag_ftyp());
    assert(id3@ =~= tag_id3());

    if at(head, 0, &zip_local) || at(head, 0, &zip_empty) || at(head, 0, &zip_spanned) {
        return Sniff::Zip;
    }
    // RIFF and FORM are container tags shared with formats this cannot read, so
    // both are confirmed by the type that follows the size word.
    if at(head, 0, &riff) && at(head, 8, &wave) {
        return Sniff::Wav;
    }
    if at(head, 0, &form) && (at(head, 8, &aiff) || at(head, 8, &aifc)) {
        return Sniff::Aiff;
    }
    if at(head, 0, &flac) {
        return Sniff::Flac;
    }
    if at(head, 0, &ogg) {
        return Sniff::Ogg;
    }
    if at(head, 0, &matroska) {
        return Sniff::Matroska;
    }
    // An ISO base media file names its brand at byte four, which is what MP4,
    // M4A and MOV all are underneath.
    if at(head, 4, &ftyp) {
        return Sniff::Iso;
    }
    // An MP3 is either tagged or it starts at a frame, and a frame starts with
    // eleven set bits.
    if at(head, 0, &id3) {
        return Sniff::Mp3;
    }
    if head.len() >= 2 && head[0] == 0xFF && head[1] & 0xE0 == 0xE0 {
        return Sniff::Mp3;
    }
    Sniff::Unknown
}

} // verus!
