//! Names an archive wrote as UTF-8 and a reader took for code page 437.
//!
//! A zip says whether its names are UTF-8 in one flag of one header, and the
//! tools people actually zip with leave that flag clear while writing UTF-8
//! anyway. A reader that believes the flag decodes those bytes as code page
//! 437, so `Beyoncé` arrives as `Beyonc├⌐`. The bytes under the mistake are
//! still the UTF-8 they always were, and they are also the key the archive
//! indexes the entry by, so undoing it repairs the name and the lookup at once.

use crate::text::{chars_of, is_ascii_char};
use vstd::prelude::*;
use vstd::utf8::{decode_utf8, valid_utf8};

verus! {

/// What code page 437 puts in `0x80..=0xFF`.
///
/// The half that differs from ASCII, which is the half a mistaken decode draws
/// from. A constant from 1981, written out.
pub const CP437_HIGH: [char; 128] = [
    'Ç', 'ü', 'é', 'â', 'ä', 'à', 'å', 'ç', 'ê', 'ë', 'è', 'ï', 'î', 'ì', 'Ä', 'Å',
    'É', 'æ', 'Æ', 'ô', 'ö', 'ò', 'û', 'ù', 'ÿ', 'Ö', 'Ü', '¢', '£', '¥', '₧', 'ƒ',
    'á', 'í', 'ó', 'ú', 'ñ', 'Ñ', 'ª', 'º', '¿', '⌐', '¬', '½', '¼', '¡', '«', '»',
    '░', '▒', '▓', '│', '┤', '╡', '╢', '╖', '╕', '╣', '║', '╗', '╝', '╜', '╛', '┐',
    '└', '┴', '┬', '├', '─', '┼', '╞', '╟', '╚', '╔', '╩', '╦', '╠', '═', '╬', '╧',
    '╨', '╤', '╥', '╙', '╘', '╒', '╓', '╫', '╪', '┘', '┌', '█', '▄', '▌', '▐', '▀',
    'α', 'ß', 'Γ', 'π', 'Σ', 'σ', 'µ', 'τ', 'Φ', 'Θ', 'Ω', 'δ', '∞', 'φ', 'ε', '∩',
    '≡', '±', '≥', '≤', '⌠', '⌡', '÷', '≈', '°', '∙', '·', '√', 'ⁿ', '²', '■', '\u{a0}',
];

/// The character code page 437 draws for a byte.
pub open spec fn cp437_char(byte: u8) -> char {
    if byte < 0x80 {
        (byte as u32) as char
    } else {
        CP437_HIGH@[byte - 0x80]
    }
}

/// How a reader that believes the flag decodes these bytes.
pub open spec fn misread(bytes: Seq<u8>) -> Seq<char> {
    Seq::new(bytes.len(), |i: int| cp437_char(bytes[i]))
}

/// Where a character first sits in the table, searching from `from`, or `-1`.
pub open spec fn table_position(c: char, from: int) -> int
    decreases 128 - from,
{
    if from >= 128 || from < 0 {
        -1
    } else if CP437_HIGH@[from] == c {
        from
    } else {
        table_position(c, from + 1)
    }
}

/// The byte code page 437 writes a character as, if it has one.
pub open spec fn cp437_code(c: char) -> Option<u8> {
    if is_ascii_char(c) {
        Some((c as u32) as u8)
    } else if table_position(c, 0) >= 0 {
        Some((0x80 + table_position(c, 0)) as u8)
    } else {
        None
    }
}

/// Whether every character of a name has a code page 437 byte.
pub open spec fn encodable(name: Seq<char>) -> bool {
    forall|i: int| 0 <= i < name.len() ==> (#[trigger] cp437_code(name[i])) is Some
}

/// The bytes a name came from, read back through code page 437.
pub open spec fn encoded(name: Seq<char>) -> Seq<u8> {
    Seq::new(name.len(), |i: int| cp437_code(name[i]).unwrap())
}

/// What undoing the mistake gives: the UTF-8 under the name, when there is a
/// mistake to undo.
pub open spec fn undone(name: Seq<char>) -> Option<Seq<char>> {
    if !encodable(name) {
        None
    } else if !valid_utf8(encoded(name)) {
        None
    } else if decode_utf8(encoded(name)) == name {
        None
    } else {
        Some(decode_utf8(encoded(name)))
    }
}

/// A name with its mistake undone, or as it was.
pub open spec fn repaired(name: Seq<char>) -> Seq<char> {
    match undone(name) {
        Some(recovered) => recovered,
        None => name,
    }
}

/// `String::from_utf8`, as an `Option`.
///
/// What it claims is what the standard library documents: the bytes become a
/// string exactly when they are valid UTF-8, and the string is what they encode.
#[verifier::external_body]
fn string_from_utf8(bytes: Vec<u8>) -> (r: Option<String>)
    ensures
        r is Some <==> valid_utf8(bytes@),
        r matches Some(s) ==> s@ == decode_utf8(bytes@),
{
    String::from_utf8(bytes).ok()
}

/// The table holds no ASCII.
pub proof fn cp437_table_is_not_ascii()
    ensures
        forall|i: int| 0 <= i < 128 ==> !is_ascii_char(#[trigger] CP437_HIGH@[i]),
{
    assert(CP437_HIGH@[0] == 'Ç');
}

/// The table holds no character twice.
#[verifier::rlimit(100)]
pub proof fn cp437_table_is_injective()
    ensures
        forall|i: int, j: int|
            0 <= i < 128 && 0 <= j < 128 && i != j ==> CP437_HIGH@[i] != CP437_HIGH@[j],
{
    assert(CP437_HIGH@[0] == 'Ç');
}

/// A search through the table stops at the first place it finds the character.
proof fn lemma_table_position(c: char, from: int, at: int)
    requires
        0 <= from <= at < 128,
        CP437_HIGH@[at] == c,
        forall|j: int| from <= j < at ==> CP437_HIGH@[j] != c,
    ensures
        table_position(c, from) == at,
    decreases at - from,
{
    if from < at {
        lemma_table_position(c, from + 1, at);
    }
}

/// Every byte survives the trip through code page 437 and back.
pub proof fn cp437_round_trip(byte: u8)
    ensures
        cp437_code(cp437_char(byte)) == Some(byte),
{
    if byte < 0x80 {
        assert(((byte as u32) as char) as u32 == byte as u32);
    } else {
        let i = (byte - 0x80) as int;
        let c = cp437_char(byte);
        assert(CP437_HIGH@[i] == c);
        assert(!is_ascii_char(c)) by {
            cp437_table_is_not_ascii();
        }
        assert(forall|j: int| 0 <= j < i ==> CP437_HIGH@[j] != c) by {
            cp437_table_is_injective();
        }
        lemma_table_position(c, 0, i);
    }
}

/// A name that arrived as UTF-8 misread through code page 437 is recovered
/// exactly: undoing the mistake gives back what the archive wrote, and finds
/// nothing to undo when the misreading changed nothing.
pub proof fn misreading_is_undone(bytes: Seq<u8>)
    requires
        valid_utf8(bytes),
    ensures
        undone(misread(bytes)) == (if decode_utf8(bytes) == misread(bytes) {
            None
        } else {
            Some(decode_utf8(bytes))
        }),
{
    let name = misread(bytes);
    assert forall|i: int| 0 <= i < name.len() implies (#[trigger] cp437_code(name[i])) is Some by {
        cp437_round_trip(bytes[i]);
    }
    assert forall|i: int| 0 <= i < name.len() implies encoded(name)[i] == bytes[i] by {
        cp437_round_trip(bytes[i]);
    }
    assert(encoded(name) =~= bytes);
}

/// The byte code page 437 writes a character as.
pub fn cp437_byte(character: char) -> (r: Option<u8>)
    ensures
        r == cp437_code(character),
{
    if (character as u32) < 0x80 {
        return Some((character as u32) as u8);
    }
    let mut at: usize = 0;
    while at < 128
        invariant
            at <= 128,
            !is_ascii_char(character),
            table_position(character, 0) == table_position(character, at as int),
        decreases 128 - at,
    {
        if CP437_HIGH[at] == character {
            return Some((0x80 + at) as u8);
        }
        at = at + 1;
    }
    None
}

/// Recover a name the archive stored as UTF-8 and the reader decoded as code
/// page 437.
///
/// `None` when there is nothing to undo. An ASCII name encodes back to itself,
/// and a name genuinely written in code page 437 gives bytes that are not
/// UTF-8, which is what distinguishes the two cases without guessing.
pub fn undo_cp437(name: &str) -> (r: Option<String>)
    ensures
        match r {
            Some(s) => undone(name@) == Some(s@),
            None => undone(name@) is None,
        },
{
    let chars = chars_of(name);
    let mut raw: Vec<u8> = Vec::new();
    let mut i: usize = 0;
    while i < chars.len()
        invariant
            i <= chars@.len(),
            chars@ == name@,
            raw@.len() == i,
            forall|j: int| 0 <= j < i ==> (#[trigger] cp437_code(chars@[j])) is Some,
            forall|j: int| 0 <= j < i ==> raw@[j] == cp437_code(chars@[j]).unwrap(),
        decreases chars@.len() - i,
    {
        match cp437_byte(chars[i]) {
            Some(byte) => raw.push(byte),
            None => {
                return None;
            },
        }
        i = i + 1;
    }
    assert(raw@ =~= encoded(name@));
    let recovered = match string_from_utf8(raw) {
        Some(recovered) => recovered,
        None => {
            return None;
        },
    };
    let name_chars = chars_of(recovered.as_str());
    if crate::text::eq_chars(name_chars.as_slice(), chars.as_slice()) {
        None
    } else {
        Some(recovered)
    }
}

/// An ASCII name has nothing to undo.
pub proof fn ascii_names_are_left_alone(name: Seq<char>)
    requires
        forall|i: int| 0 <= i < name.len() ==> is_ascii_char(#[trigger] name[i]),
    ensures
        undone(name) is None,
{
    let bytes = encoded(name);
    assert forall|i: int| 0 <= i < name.len() implies (#[trigger] cp437_code(name[i])) is Some by {}
    assert(name =~= misread(bytes)) by {
        assert forall|i: int| 0 <= i < name.len() implies name[i] == misread(bytes)[i] by {
            let x = name[i] as u32;
            assert(((x as u8) as u32) == x) by (bit_vector)
                requires
                    x < 0x80,
            ;
            vstd::utf8::char_u32_cast(name[i], x);
            assert(bytes[i] == x as u8);
            assert(misread(bytes)[i] == ((x as u8) as u32) as char);
        }
    }
    vstd::utf8::is_ascii_chars_encode_utf8(name);
    assert(vstd::utf8::encode_utf8(name) =~= bytes) by {
        assert forall|i: int| 0 <= i < name.len() implies vstd::utf8::encode_utf8(name)[i]
            == bytes[i] by {}
    }
    vstd::utf8::encode_utf8_valid_utf8(name);
    vstd::utf8::encode_utf8_decode_utf8(name);
}

/// One entry of one archive, as the worker lists it.
#[derive(Clone, Debug)]
pub struct Entry {
    /// Which archive holds it, by the index `archive-add` gave back.
    pub archive: usize,
    /// The entry as the archive keys it, directories and all, which is what
    /// `archive-extract` takes back.
    pub name: String,
    /// The same without the directories, which is the name to measure under.
    pub file_name: String,
    pub size: u64,
}

impl Entry {
    /// Put right a name the archive wrote as UTF-8 and the reader took for
    /// code page 437.
    ///
    /// Both fields, because one is what the track is called and the other is
    /// what the archive is keyed by, and a half-repaired entry is one that
    /// either reads wrong or cannot be found.
    pub fn repair(&mut self)
        ensures
            final(self).archive == old(self).archive,
            final(self).size == old(self).size,
            final(self).name@ == repaired(old(self).name@),
            final(self).file_name@ == repaired(old(self).file_name@),
    {
        if let Some(name) = undo_cp437(self.name.as_str()) {
            self.name = name;
        }
        if let Some(file_name) = undo_cp437(self.file_name.as_str()) {
            self.file_name = file_name;
        }
    }
}

/// The entries of one archive, in the order the listing gave them.
pub open spec fn entries_for(entries: Seq<Entry>, archive: usize) -> Seq<Entry>
    decreases entries.len(),
{
    if entries.len() == 0 {
        Seq::empty()
    } else if entries.last().archive == archive {
        entries_for(entries.drop_last(), archive).push(entries.last())
    } else {
        entries_for(entries.drop_last(), archive)
    }
}

/// The entries `archive-entries` listed for one archive, with their names put
/// right.
///
/// The listing answers for every archive at once, and the ones wanted are the
/// ones the archive just added holds.
pub fn entries_of(entries: Vec<Entry>, archive: usize) -> (r: Vec<Entry>)
    ensures
        r@.len() == entries_for(entries@, archive).len(),
        forall|i: int|
            0 <= i < r@.len() ==> {
                let listed = #[trigger] entries_for(entries@, archive)[i];
                &&& r@[i].archive == listed.archive
                &&& r@[i].size == listed.size
                &&& r@[i].name@ == repaired(listed.name@)
                &&& r@[i].file_name@ == repaired(listed.file_name@)
            },
{
    let ghost all = entries@;
    let total = entries.len();
    let mut rest = entries;
    let mut r: Vec<Entry> = Vec::new();
    let mut taken: usize = 0;
    while rest.len() > 0
        invariant
            taken <= all.len(),
            all.len() == total,
            rest@ == all.skip(taken as int),
            r@.len() == entries_for(all.take(taken as int), archive).len(),
            forall|i: int|
                0 <= i < r@.len() ==> {
                    let listed = #[trigger] entries_for(all.take(taken as int), archive)[i];
                    &&& r@[i].archive == listed.archive
                    &&& r@[i].size == listed.size
                    &&& r@[i].name@ == repaired(listed.name@)
                    &&& r@[i].file_name@ == repaired(listed.file_name@)
                },
        decreases rest@.len(),
    {
        let ghost before = entries_for(all.take(taken as int), archive);
        let mut entry = rest.remove(0);
        assert(entry == all[taken as int]);
        assert(all.take(taken + 1).drop_last() =~= all.take(taken as int));
        assert(all.take(taken + 1).last() == entry);
        if entry.archive == archive {
            let ghost original = entry;
            entry.repair();
            r.push(entry);
            assert(entries_for(all.take(taken + 1), archive) == before.push(original));
        }
        taken = taken + 1;
        assert(rest@ =~= all.skip(taken as int));
    }
    assert(all.take(taken as int) =~= all);
    r
}

} // verus!
