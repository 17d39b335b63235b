//! The rules the settings form is drawn by.

use crate::options::{wire_of, Format};
use crate::text::{chars_of, eq_chars, lower, push_char};
use vstd::prelude::*;

verus! {

/// Whether the worker said it can write this format.
pub open spec fn is_available(formats: Seq<String>, format: Format) -> bool {
    exists|i: int| 0 <= i < formats.len() && (#[trigger] formats[i])@ == wire_of(format)
}

/// Every format, in the order the form lists them.
pub open spec fn all_formats() -> Seq<Format> {
    seq![Format::Source, Format::Wav, Format::Flac, Format::Mp3]
}

/// The formats of `from` this build can write, in their order.
pub open spec fn available_of(formats: Seq<String>, from: Seq<Format>) -> Seq<Format>
    decreases from.len(),
{
    if from.len() == 0 {
        Seq::empty()
    } else if is_available(formats, from.last()) {
        available_of(formats, from.drop_last()).push(from.last())
    } else {
        available_of(formats, from.drop_last())
    }
}

/// Whether this build can write a format.
pub fn available(formats: &Vec<String>, format: Format) -> (r: bool)
    ensures
        r == is_available(formats@, format),
{
    let wire = chars_of(format.wire());
    let mut i: usize = 0;
    while i < formats.len()
        invariant
            i <= formats@.len(),
            wire@ == wire_of(format),
            forall|j: int| 0 <= j < i ==> (#[trigger] formats@[j])@ != wire_of(format),
        decreases formats@.len() - i,
    {
        let name = chars_of(formats[i].as_str());
        if eq_chars(name.as_slice(), wire.as_slice()) {
            return true;
        }
        i = i + 1;
    }
    false
}

/// The formats this build can write, in the order the form lists them.
///
/// Empty until the worker has answered, which is why the field is drawn on a
/// count rather than on a flag: a form that flickers a control into existence a
/// second after the page loads is worse than one that never had it.
pub fn offered(formats: &Vec<String>) -> (r: Vec<Format>)
    ensures
        r@ == available_of(formats@, all_formats()),
{
    let all = Format::ALL;
    assert(all@ =~= all_formats());
    let mut r: Vec<Format> = Vec::new();
    let mut i: usize = 0;
    while i < 4
        invariant
            i <= 4,
            all@ == all_formats(),
            r@ == available_of(formats@, all_formats().take(i as int)),
        decreases 4 - i,
    {
        assert(all_formats().take(i + 1).drop_last() =~= all_formats().take(i as int));
        if available(formats, all[i]) {
            r.push(all[i]);
        }
        i = i + 1;
    }
    assert(all_formats().take(4) =~= all_formats());
    r
}

/// Whether a character is an ASCII letter or digit.
pub open spec fn is_ascii_alphanumeric(c: char) -> bool {
    ('0' <= c && c <= '9') || ('A' <= c && c <= 'Z') || ('a' <= c && c <= 'z')
}

/// A stable id for one field, from its label: `field-`, then the label with
/// every letter and digit in lower case and everything else a dash.
pub open spec fn field_id_of(label: Seq<char>) -> Seq<char> {
    "field-"@ + Seq::new(
        label.len(),
        |i: int|
            if is_ascii_alphanumeric(label[i]) {
                lower(label[i])
            } else {
                '-'
            },
    )
}

/// A stable id for one field, from its label.
pub fn field_id(label: &str) -> (r: String)
    ensures
        r@ == field_id_of(label@),
{
    let chars = chars_of(label);
    let mut r = String::from_str("field-");
    let ghost prefix = r@;
    let mut i: usize = 0;
    while i < chars.len()
        invariant
            i <= chars@.len(),
            chars@ == label@,
            prefix == "field-"@,
            r@ == prefix + Seq::new(
                i as nat,
                |k: int|
                    if is_ascii_alphanumeric(chars@[k]) {
                        lower(chars@[k])
                    } else {
                        '-'
                    },
            ),
        decreases chars@.len() - i,
    {
        let c = chars[i];
        let slug = if ('0' <= c && c <= '9') || ('A' <= c && c <= 'Z') || ('a' <= c && c <= 'z') {
            crate::text::lower_char(c)
        } else {
            '-'
        };
        push_char(&mut r, slug);
        i = i + 1;
        assert(r@ =~= prefix + Seq::new(
            i as nat,
            |k: int|
                if is_ascii_alphanumeric(chars@[k]) {
                    lower(chars@[k])
                } else {
                    '-'
                },
        ));
    }
    assert(r@ =~= field_id_of(label@));
    r
}

} // verus!
