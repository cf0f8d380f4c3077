//! GNOME Terminal profile settings and font descriptions.
use vstd::prelude::*;

use crate::text::{
    chars_of, decimal, str_eq, lemma_decimal_is_digits, lemma_rfind_append, push_decimal, rfind, rfind_char, substring, trim, trim_bounds, trim_char,
    trim_char_bounds,
};

verus! {

/// The dconf path of a GNOME Terminal profile.
pub open spec fn profile_dir(uuid: Seq<char>) -> Seq<char> {
    "/org/gnome/terminal/legacy/profiles:/:"@ + uuid + "/"@
}

/// The dconf path of a GNOME Terminal profile.
pub fn profile_path(uuid: &str) -> (s: String)
    ensures
        s@ == profile_dir(uuid@),
{
    let mut s = String::from_str("/org/gnome/terminal/legacy/profiles:/:");
    s.append(uuid);
    s.append("/");
    s
}

/// The relocatable schema path under which a profile's keys are read and set.
pub open spec fn profile_schema(uuid: Seq<char>) -> Seq<char> {
    "org.gnome.Terminal.Legacy.Profile:"@ + profile_dir(uuid)
}

/// The relocatable schema path under which a profile's keys are read and set.
pub fn profile_schema_path(uuid: &str) -> (s: String)
    ensures
        s@ == profile_schema(uuid@),
{
    let mut s = String::from_str("org.gnome.Terminal.Legacy.Profile:");
    let path = profile_path(uuid);
    s.append(path.as_str());
    s
}

/// The value that `gsettings get` printed: the output without surrounding
/// whitespace and without the quotes around a string.
pub open spec fn gsettings_text(raw: Seq<char>) -> Seq<char> {
    trim_char(trim(raw), '\'')
}

/// The value that `gsettings get` printed: the output without surrounding
/// whitespace and without the quotes around a string.
pub fn gsettings_value(raw: &str) -> (s: String)
    ensures
        s@ == gsettings_text(raw@),
{
    let cs = chars_of(raw);
    let (a, b) = trim_bounds(&cs);
    let trimmed = substring(raw, a, b);
    let ts = chars_of(trimmed.as_str());
    let (c, d) = trim_char_bounds(&ts, '\'');
    substring(trimmed.as_str(), c, d)
}

/// A font description split at its last space: the family (with any style)
/// and the size (`str::rsplit_once(' ')`).
pub open spec fn font_parts(desc: Seq<char>) -> Option<(Seq<char>, Seq<char>)> {
    match rfind(desc, ' ') {
        Some(k) => Some((desc.take(k), desc.skip(k + 1))),
        None => None,
    }
}

/// Split a font description like "Monospace 12" into its family and size text.
pub fn split_font_desc(desc: &str) -> (r: Option<(String, String)>)
    ensures
        match font_parts(desc@) {
            Some((family, size)) => r matches Some((f, z)) && f@ == family && z@ == size,
            None => r is None,
        },
{
    let cs = chars_of(desc);
    match rfind_char(&cs, ' ') {
        Some(k) => {
            let n = cs.len();
            let family = substring(desc, 0, k);
            let size = substring(desc, k + 1, n);
            proof {
                assert(desc@.subrange(0, k as int) =~= desc@.take(k as int));
                assert(desc@.subrange(k + 1, n as int) =~= desc@.skip(k + 1));
            }
            Some((family, size))
        },
        None => None,
    }
}

/// A font description with its size replaced by `size`; a description
/// without a space gets the size appended.
pub open spec fn resized_font(desc: Seq<char>, size: nat) -> Seq<char> {
    match font_parts(desc) {
        Some((family, _)) => family + " "@ + decimal(size),
        None => desc + " "@ + decimal(size),
    }
}

/// Build a font description with a new (rounded) size: "Monospace 12" + 8 → "Monospace 8"
pub fn font_with_size(desc: &str, size: u32) -> (s: String)
    ensures
        s@ == resized_font(desc@, size as nat),
{
    let mut s = match split_font_desc(desc) {
        Some((family, _)) => family,
        None => String::from_str(desc),
    };
    s.append(" ");
    push_decimal(&mut s, size as u64);
    s
}

/// The font to set for a new (rounded) size: the resized description, or
/// nothing when it is the description already set, so that the font is set
/// only when it changes.
pub fn font_update(current: &str, size: u32) -> (r: Option<String>)
    ensures
        resized_font(current@, size as nat) == current@ ==> r is None,
        resized_font(current@, size as nat) != current@ ==> (r matches Some(f) && f@
            == resized_font(current@, size as nat)),
{
    let new_font = font_with_size(current, size);
    if str_eq(new_font.as_str(), current) {
        None
    } else {
        Some(new_font)
    }
}

/// Resizing leaves the family alone and makes the size read `size`: the
/// resized description splits into the original family (the whole
/// description when it had no space) and the decimal size.
pub proof fn lemma_resized_font_parts(desc: Seq<char>, size: nat)
    ensures
        font_parts(resized_font(desc, size)) == Some(
            (
                match font_parts(desc) {
                    Some((family, _)) => family,
                    None => desc,
                },
                decimal(size),
            ),
        ),
{
    let family = match font_parts(desc) {
        Some((f, _)) => f,
        None => desc,
    };
    let d = decimal(size);
    let spaced = family + seq![' '];
    lemma_decimal_is_digits(size);
    assert forall|i: int| 0 <= i < d.len() implies d[i] != ' ' by {
        assert(48 <= (d[i] as u32));
    }
    lemma_rfind_append(spaced, d, ' ');
    assert(spaced.drop_last() =~= family);
    reveal_strlit(" ");
    assert(" "@ =~= seq![' ']);
    assert(resized_font(desc, size) =~= spaced + d);
    assert((spaced + d).take(family.len() as int) =~= family);
    assert((spaced + d).skip(family.len() as int + 1) =~= d);
}

} // verus!
