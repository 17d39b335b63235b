//! What a track is called, and what its name says it is.
//!
//! Both databases pick a track's format out of its name and neither opens the
//! file, so the name is where the rules about formats are enforced: which
//! extensions the exporters accept, which name a dropped file is taken at its
//! word for, and how a name is put right to match the bytes under it.

use crate::sniff::{acceptable_of, preferred_of, Sniff};
use crate::text::{
    char_width, chars_of, eq_chars, eq_ignoring_case, last_index, last_index_of,
    lemma_last_index_of, lower_all, lower_char, push_char, same_ignoring_case, utf8_len,
    utf8_width,
};
use vstd::prelude::*;

verus! {

/// What follows the last dot, when there is one.
pub open spec fn extension_after_dot(name: Seq<char>) -> Option<Seq<char>> {
    let dot = last_index_of(name, '.');
    if dot >= 0 {
        Some(name.skip(dot + 1))
    } else {
        None
    }
}

/// The five extensions `collection::Format::from_extension` knows.
pub open spec fn writable_extension(extension: Seq<char>) -> bool {
    ||| extension == seq!['w', 'a', 'v']
    ||| extension == seq!['a', 'i', 'f', 'f']
    ||| extension == seq!['a', 'i', 'f']
    ||| extension == seq!['f', 'l', 'a', 'c']
    ||| extension == seq!['m', 'p', '3']
}

/// Whether the device can write a track under this name.
pub open spec fn is_writable(name: Seq<char>) -> bool {
    match extension_after_dot(name) {
        Some(extension) => writable_extension(lower_all(extension)),
        None => false,
    }
}

/// Whether a name claims to be a WAV.
pub open spec fn is_claimed_wav(name: Seq<char>) -> bool {
    match extension_after_dot(name) {
        Some(extension) => same_ignoring_case(extension, seq!['w', 'a', 'v']),
        None => false,
    }
}

/// A name as a stem and the extension it claims, if it claims one: a dot with
/// something on both sides of it, and after it no more than four bytes and no
/// space.
pub open spec fn split_of(name: Seq<char>) -> (Seq<char>, Option<Seq<char>>) {
    let dot = last_index_of(name, '.');
    if dot > 0 && dot < name.len() - 1 && utf8_len(name.skip(dot + 1)) <= 4 && !name.skip(
        dot + 1,
    ).contains(' ') {
        (name.take(dot), Some(name.skip(dot + 1)))
    } else {
        (name, None)
    }
}

/// Whether an extension is one of these, ignoring case.
pub open spec fn among(extension: Seq<char>, known: Seq<Seq<char>>) -> bool {
    exists|k: int| 0 <= k < known.len() && same_ignoring_case(extension, #[trigger] known[k])
}

/// What a track is called on the image once its bytes have been looked at.
///
/// A format the device cannot write keeps its name. A name whose extension is
/// already right for the bytes keeps it. Anything else is its stem with the
/// extension the bytes call for.
pub open spec fn corrected(name: Seq<char>, sniff: Sniff) -> Seq<char> {
    match preferred_of(sniff) {
        None => name,
        Some(preferred) => {
            let (stem, extension) = split_of(name);
            match extension {
                Some(e) => if among(e, acceptable_of(sniff)) {
                    name
                } else {
                    stem + seq!['.'] + preferred
                },
                None => stem + seq!['.'] + preferred,
            }
        },
    }
}

/// The part of a path after its last slash.
pub open spec fn last_segment(name: Seq<char>) -> Seq<char> {
    name.skip(last_index_of(name, '/') + 1)
}

/// Whether the device can write a track under this name.
///
/// These five spellings are `collection::Format::from_extension`, which is what
/// both exporters call to decide what a track is. A name outside this list
/// fails the export for the whole image rather than for one track, so the page
/// holds those rows off instead of offering them.
pub fn writable(name: &str) -> (r: bool)
    ensures
        r == is_writable(name@),
{
    let chars = chars_of(name);
    let n = chars.len();
    proof {
        lemma_last_index_of(chars@, '.');
    }
    match last_index(&chars, '.') {
        None => false,
        Some(dot) => {
            let mut lowered: Vec<char> = Vec::new();
            let mut i: usize = dot + 1;
            while i < chars.len()
                invariant
                    dot < chars@.len(),
                    dot + 1 <= i <= chars@.len(),
                    lowered@ == lower_all(chars@.subrange(dot + 1, i as int)),
                decreases chars@.len() - i,
            {
                lowered.push(lower_char(chars[i]));
                i = i + 1;
                assert(lowered@ =~= lower_all(chars@.subrange(dot + 1, i as int)));
            }
            assert(chars@.subrange(dot + 1, chars@.len() as int) =~= chars@.skip(dot + 1));
            let wav: [char; 3] = ['w', 'a', 'v'];
            let aiff: [char; 4] = ['a', 'i', 'f', 'f'];
            let aif: [char; 3] = ['a', 'i', 'f'];
            let flac: [char; 4] = ['f', 'l', 'a', 'c'];
            let mp3: [char; 3] = ['m', 'p', '3'];
            assert(wav@ =~= seq!['w', 'a', 'v']);
            assert(aiff@ =~= seq!['a', 'i', 'f', 'f']);
            assert(aif@ =~= seq!['a', 'i', 'f']);
            assert(flac@ =~= seq!['f', 'l', 'a', 'c']);
            assert(mp3@ =~= seq!['m', 'p', '3']);
            eq_chars(lowered.as_slice(), &wav) || eq_chars(lowered.as_slice(), &aiff) || eq_chars(
                lowered.as_slice(),
                &aif,
            ) || eq_chars(lowered.as_slice(), &flac) || eq_chars(lowered.as_slice(), &mp3)
        },
    }
}

/// Whether a name claims to be a WAV.
///
/// The one extension taken at its word, so the common case costs no read at all.
/// A WAV that is really something else still fails, and says so from the
/// analyser rather than from here.
pub fn claims_wav(name: &str) -> (r: bool)
    ensures
        r == is_claimed_wav(name@),
{
    let chars = chars_of(name);
    let n = chars.len();
    proof {
        lemma_last_index_of(chars@, '.');
    }
    match last_index(&chars, '.') {
        None => false,
        Some(dot) => {
            let tail = crate::text::slice_of(&chars, dot + 1, chars.len());
            assert(tail@ =~= chars@.skip(dot + 1));
            let wav: [char; 3] = ['w', 'a', 'v'];
            assert(wav@ =~= seq!['w', 'a', 'v']);
            eq_ignoring_case(tail.as_slice(), &wav)
        },
    }
}

/// How many bytes UTF-8 spends on `chars[from..]`, or something over four once
/// it is clear the answer is more than four.
fn tail_bytes(chars: &Vec<char>, from: usize) -> (r: usize)
    requires
        from <= chars@.len(),
    ensures
        r <= 4 ==> r == utf8_len(chars@.skip(from as int)),
        r > 4 ==> utf8_len(chars@.skip(from as int)) > 4,
{
    let mut total: usize = 0;
    let mut i: usize = from;
    while i < chars.len()
        invariant
            from <= i <= chars@.len(),
            total == utf8_len(chars@.subrange(from as int, i as int)),
            total <= 4,
        decreases chars@.len() - i,
    {
        let ghost before = chars@.subrange(from as int, i as int);
        assert(chars@.subrange(from as int, i + 1).drop_last() =~= before);
        total = total + char_width(chars[i]);
        i = i + 1;
        if total > 4 {
            proof {
                lemma_utf8_len_grows(chars@.subrange(from as int, i as int), chars@.skip(from as int));
            }
            return total;
        }
    }
    assert(chars@.subrange(from as int, chars@.len() as int) =~= chars@.skip(from as int));
    total
}

/// Whether `chars[from..]` holds a space.
fn has_space(chars: &Vec<char>, from: usize) -> (r: bool)
    requires
        from <= chars@.len(),
    ensures
        r == chars@.skip(from as int).contains(' '),
{
    let mut i: usize = from;
    while i < chars.len()
        invariant
            from <= i <= chars@.len(),
            forall|j: int| from <= j < i ==> chars@[j] != ' ',
        decreases chars@.len() - i,
    {
        if chars[i] == ' ' {
            assert(chars@.skip(from as int)[i - from] == ' ');
            return true;
        }
        i = i + 1;
    }
    assert forall|k: int| 0 <= k < chars@.skip(from as int).len() implies chars@.skip(
        from as int,
    )[k] != ' ' by {
        assert(chars@.skip(from as int)[k] == chars@[k + from]);
    }
    false
}

/// A name grows by at least as many bytes as any prefix of it takes.
proof fn lemma_utf8_len_grows(prefix: Seq<char>, whole: Seq<char>)
    requires
        prefix.len() <= whole.len(),
        prefix =~= whole.take(prefix.len() as int),
    ensures
        utf8_len(prefix) <= utf8_len(whole),
    decreases whole.len(),
{
    if prefix.len() < whole.len() {
        assert(whole.drop_last().take(prefix.len() as int) =~= prefix);
        lemma_utf8_len_grows(prefix, whole.drop_last());
    } else {
        assert(prefix =~= whole);
    }
}

/// A name as a stem and the extension it claims, if it claims one.
///
/// A dot near the end is an extension; the dot in `Artist - Title Vol. 2` is
/// not. Four bytes is where the one stops looking like the other, and a space
/// is something no extension holds.
pub fn split_name(name: &str) -> (r: (&str, Option<&str>))
    ensures
        r.0@ == split_of(name@).0,
        match r.1 {
            Some(e) => split_of(name@).1 == Some(e@),
            None => split_of(name@).1 is None,
        },
{
    let chars = chars_of(name);
    let n = chars.len();
    proof {
        lemma_last_index_of(chars@, '.');
    }
    match last_index(&chars, '.') {
        Some(dot) => {
            if dot > 0 && dot < chars.len() - 1 && tail_bytes(&chars, dot + 1) <= 4
                && !has_space(&chars, dot + 1) {
                let stem = name.substring_char(0, dot);
                let tail = name.substring_char(dot + 1, chars.len());
                assert(name@.subrange(0, dot as int) =~= name@.take(dot as int));
                assert(name@.subrange(dot + 1, name@.len() as int) =~= name@.skip(dot + 1));
                (stem, Some(tail))
            } else {
                (name, None)
            }
        },
        None => (name, None),
    }
}

/// Whether an extension is one of these, ignoring case.
fn is_among(extension: &str, known: &Vec<Vec<char>>) -> (r: bool)
    ensures
        r == among(extension@, known@.map_values(|k: Vec<char>| k@)),
{
    let chars = chars_of(extension);
    let ghost spec_known = known@.map_values(|k: Vec<char>| k@);
    let mut k: usize = 0;
    while k < known.len()
        invariant
            k <= known@.len(),
            chars@ == extension@,
            spec_known == known@.map_values(|k: Vec<char>| k@),
            forall|j: int| 0 <= j < k ==> !same_ignoring_case(chars@, #[trigger] spec_known[j]),
        decreases known@.len() - k,
    {
        if eq_ignoring_case(chars.as_slice(), known[k].as_slice()) {
            assert(spec_known[k as int] == known@[k as int]@);
            return true;
        }
        assert(spec_known[k as int] == known@[k as int]@);
        k = k + 1;
    }
    false
}

/// What a track is called on the image, given what its first bytes are.
///
/// The name a file arrives under is a claim and its bytes are the fact, and the
/// two disagree often enough to matter: a shop ships a FLAC inside a zip under
/// an `.mp3` name, a download arrives with no extension at all. Every rename is
/// one where the bytes already are what the new name says, so nothing needs to
/// be transcoded.
pub fn name_on_the_image(name: &str, sniffed: Sniff) -> (r: String)
    ensures
        r@ == corrected(name@, sniffed),
{
    let preferred = match sniffed.preferred() {
        None => {
            return String::from_str(name);
        },
        Some(preferred) => preferred,
    };
    let (stem, extension) = split_name(name);
    match extension {
        Some(extension) => {
            let known = sniffed.acceptable();
            proof {
                assert(known@.map_values(|k: Vec<char>| k@) =~= acceptable_of(sniffed));
            }
            if is_among(extension, &known) {
                return String::from_str(name);
            }
        },
        None => {},
    }
    let mut out = String::from_str(stem);
    push_char(&mut out, '.');
    out.append(preferred);
    out
}

/// The part of a name a person reads, without the directories a shop zipped
/// it under.
pub fn last_path_segment(name: &str) -> (r: &str)
    ensures
        r@ == last_segment(name@),
{
    let chars = chars_of(name);
    let n = chars.len();
    proof {
        lemma_last_index_of(chars@, '/');
    }
    let from = match last_index(&chars, '/') {
        Some(slash) => slash + 1,
        None => 0,
    };
    let r = name.substring_char(from, chars.len());
    assert(name@.subrange(from as int, name@.len() as int) =~= name@.skip(from as int));
    r
}

/// A re-encoding format always writes a name the device can hold: it ends in
/// the format's own extension, which is one of the five.
pub proof fn reencoded_names_are_writable(format: crate::options::Format, name: Seq<char>)
    requires
        format != crate::options::Format::Source,
    ensures
        is_writable(crate::options::renamed(format, name)),
{
    let extension = crate::options::extension_of(format).unwrap();
    let out = crate::options::renamed(format, name);
    let dot = last_index_of(name, '.');
    lemma_last_index_of(name, '.');
    let stem = if dot >= 0 { name.take(dot) } else { name };
    assert(out =~= stem + seq!['.'] + extension);
    lemma_dot_then_plain(stem, extension);
    assert(lower_all(extension) =~= extension);
}

/// The last dot of `stem.extension`, when the extension has none, is the one
/// before it.
pub proof fn lemma_dot_then_plain(stem: Seq<char>, extension: Seq<char>)
    requires
        !extension.contains('.'),
    ensures
        last_index_of(stem + seq!['.'] + extension, '.') == stem.len(),
        (stem + seq!['.'] + extension).skip(stem.len() as int + 1) == extension,
        (stem + seq!['.'] + extension).take(stem.len() as int) == stem,
{
    let whole = stem + seq!['.'] + extension;
    lemma_last_index_of(whole, '.');
    let d = last_index_of(whole, '.');
    assert(whole[stem.len() as int] == '.');
    if d > stem.len() as int {
        assert(whole[d] == extension[d - stem.len() - 1]);
    }
    assert(whole.skip(stem.len() as int + 1) =~= extension);
    assert(whole.take(stem.len() as int) =~= stem);
}

/// A corrected name is one the device can write whenever the bytes are a
/// format it can write at all.
pub proof fn corrected_names_are_writable(name: Seq<char>, sniff: Sniff)
    requires
        preferred_of(sniff) is Some,
    ensures
        is_writable(corrected(name, sniff)),
{
    let preferred = preferred_of(sniff).unwrap();
    let (stem, extension) = split_of(name);
    let rebuilt = stem + seq!['.'] + preferred;
    lemma_last_index_of(name, '.');
    match extension {
        Some(e) => {
            if among(e, acceptable_of(sniff)) {
                let k = choose|k: int|
                    0 <= k < acceptable_of(sniff).len() && same_ignoring_case(
                        e,
                        #[trigger] acceptable_of(sniff)[k],
                    );
                let known = acceptable_of(sniff)[k];
                assert(lower_all(known) =~= known);
                assert(extension_after_dot(name) == Some(e));
            } else {
                lemma_dot_then_plain(stem, preferred);
                assert(lower_all(preferred) =~= preferred);
            }
        },
        None => {
            lemma_dot_then_plain(stem, preferred);
            assert(lower_all(preferred) =~= preferred);
        },
    }
}

/// Putting a name right twice is putting it right once, for any name with at
/// least one character in it.
pub proof fn correcting_is_idempotent(name: Seq<char>, sniff: Sniff)
    requires
        name.len() > 0,
    ensures
        corrected(corrected(name, sniff), sniff) == corrected(name, sniff),
{
    let once = corrected(name, sniff);
    match preferred_of(sniff) {
        None => {},
        Some(preferred) => {
            let (stem, extension) = split_of(name);
            lemma_last_index_of(name, '.');
            let kept = match extension {
                Some(e) => among(e, acceptable_of(sniff)),
                None => false,
            };
            if kept {
                // `once` is `name`, whose split names an acceptable extension.
            } else {
                assert(stem.len() > 0);
                lemma_dot_then_plain(stem, preferred);
                assert(utf8_len(preferred) <= 4) by {
                    reveal_with_fuel(utf8_len, 5);
                    assert(preferred.drop_last().drop_last().drop_last().drop_last().len() == 0
                        || preferred.drop_last().drop_last().drop_last().len() == 0);
                }
                assert(!preferred.contains(' '));
                assert(split_of(once) == (stem, Some(preferred)));
                assert(same_ignoring_case(preferred, acceptable_of(sniff)[0]));
                assert(among(preferred, acceptable_of(sniff)));
            }
        },
    }
}

/// The device writes a name exactly when what follows its last dot, read
/// without regard to case, is `wav`, `aiff`, `aif`, `flac` or `mp3`: a stem and
/// an extension with no dot in it make a writable name for those five
/// spellings and for nothing else, so an `.mp4`, `.m4a`, `.ogg` or `.webm` is
/// never written. A name with no dot at all is never written either.
pub proof fn only_five_extensions_are_writable(stem: Seq<char>, extension: Seq<char>)
    requires
        !extension.contains('.'),
    ensures
        is_writable(stem + seq!['.'] + extension) <==> ({
            let e = lower_all(extension);
            ||| e == seq!['w', 'a', 'v']
            ||| e == seq!['a', 'i', 'f', 'f']
            ||| e == seq!['a', 'i', 'f']
            ||| e == seq!['f', 'l', 'a', 'c']
            ||| e == seq!['m', 'p', '3']
        }),
        !stem.contains('.') ==> !is_writable(stem),
{
    lemma_dot_then_plain(stem, extension);
    lemma_last_index_of(stem, '.');
    if last_index_of(stem, '.') >= 0 {
        assert(stem.contains('.'));
    }
}

/// A corrected name's extension names the bytes' own format: whatever it was
/// called, a WAV ends in `wav`, an AIFF in `aiff` or `aif`, a FLAC in `flac`
/// and an MP3 in `mp3`, read without regard to case. No spelling left alone
/// for one format is left alone for another. Bytes the device cannot write
/// keep their name.
pub proof fn a_corrected_name_names_its_own_format(name: Seq<char>, sniff: Sniff)
    ensures
        preferred_of(sniff) is None ==> corrected(name, sniff) == name,
        preferred_of(sniff) is Some ==> (extension_after_dot(corrected(name, sniff)) matches Some(
            e,
        ) && match sniff {
            Sniff::Wav => lower_all(e) == seq!['w', 'a', 'v'],
            Sniff::Aiff => lower_all(e) == seq!['a', 'i', 'f', 'f'] || lower_all(e) == seq![
                'a',
                'i',
                'f',
            ],
            Sniff::Flac => lower_all(e) == seq!['f', 'l', 'a', 'c'],
            Sniff::Mp3 => lower_all(e) == seq!['m', 'p', '3'],
            _ => false,
        }),
{
    match preferred_of(sniff) {
        None => {},
        Some(preferred) => {
            let (stem, extension) = split_of(name);
            lemma_last_index_of(name, '.');
            let kept = match extension {
                Some(e) => among(e, acceptable_of(sniff)),
                None => false,
            };
            if kept {
                let e = extension.unwrap();
                let k = choose|k: int|
                    0 <= k < acceptable_of(sniff).len() && same_ignoring_case(
                        e,
                        #[trigger] acceptable_of(sniff)[k],
                    );
                let known = acceptable_of(sniff)[k];
                assert(lower_all(known) =~= known);
                assert(extension_after_dot(name) == Some(e));
            } else {
                lemma_dot_then_plain(stem, preferred);
                assert(lower_all(preferred) =~= preferred);
            }
        },
    }
}

} // verus!
