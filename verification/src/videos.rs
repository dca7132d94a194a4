//! Which file names denote videos: the extension of a file name and the
//! list of recognised video extensions, compared without ASCII case.

use vstd::prelude::*;
use vstd::slice::*;
use vstd::string::*;
use vstd::utf8::*;

verus! {

/// The recognised video extensions, in lower case.
pub open spec fn video_extensions() -> Seq<Seq<char>> {
    seq![
        "3gp"@, "3g2"@, "asf"@, "avi"@, "divx"@, "flv"@, "m2ts"@, "m4v"@, "mkv"@, "mov"@,
        "mp4"@, "mpe"@, "mpeg"@, "mpg"@, "mpv"@, "mts"@, "mxf"@, "ogm"@, "ogv"@, "ts"@,
        "vob"@, "webm"@, "wmv"@,
    ]
}

/// The same list at run time.
fn video_extension_list() -> (list: Vec<&'static str>)
    ensures
        list@.len() == video_extensions().len(),
        forall|i: int| 0 <= i < list@.len() ==> #[trigger] list@[i]@ == video_extensions()[i],
{
    vec![
        "3gp", "3g2", "asf", "avi", "divx", "flv", "m2ts", "m4v", "mkv", "mov", "mp4", "mpe",
        "mpeg", "mpg", "mpv", "mts", "mxf", "ogm", "ogv", "ts", "vob", "webm", "wmv",
    ]
}

/// ASCII lower case of one character; other characters are unchanged.
pub open spec fn ascii_lower(c: char) -> char {
    if 65 <= c as u32 <= 90 {
        ((c as u32) + 32) as char
    } else {
        c
    }
}

/// ASCII lower case of a character sequence.
pub open spec fn ascii_lower_chars(s: Seq<char>) -> Seq<char> {
    s.map_values(|c: char| ascii_lower(c))
}

/// Whether `extension` names a video, without regard to ASCII case.
pub open spec fn spec_is_video_extension(extension: Seq<char>) -> bool {
    video_extensions().contains(ascii_lower_chars(extension))
}

/// The characters of `s`, in order.
fn chars_of(s: &str) -> (v: Vec<char>)
    ensures
        v@ == s@,
{
    let mut v: Vec<char> = Vec::new();
    for c in it: s.chars()
        invariant
            it.seq() == s@,
            v@ == it.seq().take(it.index() as int),
    {
        v.push(c);
    }
    v
}

/// Whether the ASCII lower case of `s` is exactly `lower`.
fn lowers_to(s: &Vec<char>, lower: &Vec<char>) -> (r: bool)
    ensures
        r == (ascii_lower_chars(s@) == lower@),
{
    broadcast use vstd::utf8::char_u32_cast;

    if s.len() != lower.len() {
        return false;
    }
    let mut i: usize = 0;
    while i < s.len()
        invariant
            s@.len() == lower@.len(),
            i <= s@.len(),
            forall|j: int| 0 <= j < i ==> ascii_lower(#[trigger] s@[j]) == lower@[j],
        decreases s@.len() - i,
    {
        let c = s[i];
        let code: u32 = c as u32;
        let lowered: u32 = if 65 <= code && code <= 90 { code + 32 } else { code };
        assert(lowered == ascii_lower(c) as u32);
        proof {
            char_u32_cast(ascii_lower(c), lowered);
            char_u32_cast(lower@[i as int], lower@[i as int] as u32);
        }
        if lowered != lower[i] as u32 {
            assert(ascii_lower_chars(s@)[i as int] != lower@[i as int]);
            return false;
        }
        i = i + 1;
    }
    assert(ascii_lower_chars(s@) =~= lower@);
    true
}

/// Whether `extension` is one of the recognised video extensions; upper-case
/// ASCII letters count as their lower-case forms.
pub fn is_video_extension(extension: &str) -> (r: bool)
    ensures
        r == spec_is_video_extension(extension@),
{
    let list = video_extension_list();
    let chars = chars_of(extension);
    let mut i: usize = 0;
    while i < list.len()
        invariant
            i <= list@.len(),
            list@.len() == video_extensions().len(),
            forall|k: int| 0 <= k < list@.len() ==> #[trigger] list@[k]@ == video_extensions()[k],
            chars@ == extension@,
            forall|j: int| 0 <= j < i ==> video_extensions()[j] != ascii_lower_chars(extension@),
        decreases list@.len() - i,
    {
        let entry = chars_of(list[i]);
        if lowers_to(&chars, &entry) {
            assert(video_extensions()[i as int] == ascii_lower_chars(extension@));
            return true;
        }
        i = i + 1;
    }
    false
}

/// `i` is the position of the last `.` in `name`.
pub open spec fn is_last_dot(name: Seq<u8>, i: int) -> bool {
    &&& 0 <= i < name.len()
    &&& name[i] == 46
    &&& forall|j: int| i < j < name.len() ==> name[j] != 46
}

/// The extension of a file name: the bytes after its last `.`, where that
/// `.` is not the name's first byte. A name without a `.`, or whose only
/// `.` starts it (a hidden file such as `.profile`), has no extension.
pub open spec fn spec_extension(name: Seq<u8>) -> Option<Seq<u8>> {
    if exists|i: int| 0 < i && is_last_dot(name, i) {
        let i = choose|i: int| 0 < i && is_last_dot(name, i);
        Some(name.subrange(i + 1, name.len() as int))
    } else {
        None
    }
}

/// Whether a file name denotes a video: it has an extension that is valid
/// UTF-8 and, as text, is a recognised video extension.
pub open spec fn spec_is_video_name(name: Seq<u8>) -> bool {
    match spec_extension(name) {
        Some(extension) => valid_utf8(extension) && spec_is_video_extension(
            decode_utf8(extension),
        ),
        None => false,
    }
}

/// The extension of the file name `name` (its bytes, as on Unix).
pub fn file_extension(name: &[u8]) -> (r: Option<Vec<u8>>)
    ensures
        r matches Some(e) ==> spec_extension(name@) == Some(e@),
        r is None ==> spec_extension(name@) is None,
{
    let mut i: usize = name.len();
    while i > 0
        invariant
            i <= name@.len(),
            forall|j: int| i <= j < name@.len() ==> name@[j] != 46,
        decreases i,
    {
        if name[i - 1] == 46u8 {
            let dot = i - 1;
            assert(is_last_dot(name@, dot as int));
            if dot == 0 {
                assert forall|k: int| !(0 < k && is_last_dot(name@, k)) by {
                    if 0 < k && is_last_dot(name@, k) {
                        assert(name@[k] == 46);
                    }
                }
                return None;
            }
            let after = slice_subrange(name, i, name.len());
            proof {
                let k = choose|k: int| 0 < k && is_last_dot(name@, k);
                if k < dot {
                    assert(name@[dot as int] == 46);
                } else if k > dot {
                    assert(name@[k] == 46);
                }
            }
            return Some(slice_to_vec(after));
        }
        i = i - 1;
    }
    assert forall|k: int| !(0 < k && is_last_dot(name@, k)) by {
        if 0 < k && is_last_dot(name@, k) {
            assert(name@[k] == 46);
        }
    }
    None
}

/// The text that `bytes` encode, when they are valid UTF-8.
///
/// Trusted: `std::str::from_utf8`, which std documents as succeeding exactly
/// when the bytes are valid UTF-8, with a string slice over those same bytes.
#[verifier::external_body]
fn utf8_text(bytes: &[u8]) -> (r: Option<&str>)
    ensures
        r is Some <==> valid_utf8(bytes@),
        r matches Some(t) ==> t.spec_bytes() == bytes@,
{
    std::str::from_utf8(bytes).ok()
}

/// Whether a directory entry is a video: it is a regular file (`is_file`,
/// as the file system reports it) and its name has a video extension.
pub fn is_video_path(file_name: &[u8], is_file: bool) -> (r: bool)
    ensures
        r == (is_file && spec_is_video_name(file_name@)),
{
    if !is_file {
        return false;
    }
    match file_extension(file_name) {
        Some(extension) => match utf8_text(extension.as_slice()) {
            Some(text) => {
                proof {
                    encode_utf8_decode_utf8(text@);
                }
                is_video_extension(text)
            },
            None => false,
        },
        None => false,
    }
}

/// Recognising a video extension ignores ASCII case: two extensions that
/// agree once lower-cased are both videos or both not, and an extension is
/// classified like its lower-case form.
pub proof fn law_video_extension_ignores_case(a: Seq<char>, b: Seq<char>)
    requires
        ascii_lower_chars(a) == ascii_lower_chars(b),
    ensures
        spec_is_video_extension(a) == spec_is_video_extension(b),
        spec_is_video_extension(a) == spec_is_video_extension(ascii_lower_chars(a)),
{
    assert forall|i: int| 0 <= i < a.len() implies #[trigger] ascii_lower(ascii_lower(a[i]))
        == ascii_lower(a[i]) by {
        let c = a[i];
        if 65 <= c as u32 <= 90 {
            let u = (c as u32) + 32;
            assert(97 <= u <= 122);
            assert((u as char) as u32 == u);
        }
    }
    assert(ascii_lower_chars(ascii_lower_chars(a)) =~= ascii_lower_chars(a));
}

/// A name made of a non-empty stem, a `.` and a part without dots has that
/// part as its extension, whatever dots the stem holds; it is a video name
/// exactly when that part is valid UTF-8 naming a recognised extension.
pub proof fn law_extension_is_after_last_dot(stem: Seq<u8>, extension: Seq<u8>)
    requires
        stem.len() > 0,
        forall|i: int| 0 <= i < extension.len() ==> extension[i] != 46,
    ensures
        spec_extension(stem + seq![46u8] + extension) == Some(extension),
        spec_is_video_name(stem + seq![46u8] + extension) == (valid_utf8(extension)
            && spec_is_video_extension(decode_utf8(extension))),
{
    let name = stem + seq![46u8] + extension;
    let d = stem.len() as int;
    assert(name[d] == 46);
    assert forall|j: int| d < j < name.len() implies name[j] != 46 by {
        assert(name[j] == extension[j - d - 1]);
    }
    assert(is_last_dot(name, d));
    let k = choose|k: int| 0 < k && is_last_dot(name, k);
    if k < d {
        assert(name[d] == 46);
    } else if k > d {
        assert(name[k] == extension[k - d - 1]);
    }
    assert(name.subrange(d + 1, name.len() as int) =~= extension);
}

/// A name with no `.` after its first byte has no extension and is no
/// video name; in particular a hidden name such as `.mkv` is not a video.
pub proof fn law_no_dot_no_video(name: Seq<u8>)
    requires
        forall|i: int| 0 < i < name.len() ==> name[i] != 46,
    ensures
        spec_extension(name) is None,
        !spec_is_video_name(name),
{
    assert forall|k: int| !(0 < k && is_last_dot(name, k)) by {
        if 0 < k && is_last_dot(name, k) {
            assert(name[k] == 46);
        }
    }
}

/// Whether `e` equals `lower` once its ASCII capitals `A`-`Z` are taken as
/// `a`-`z`.
pub open spec fn equal_ignoring_ascii_case(e: Seq<char>, lower: Seq<char>) -> bool {
    &&& e.len() == lower.len()
    &&& forall|i: int|
        0 <= i < e.len() ==> if 65 <= #[trigger] e[i] as u32 <= 90 {
            e[i] as u32 + 32 == lower[i] as u32
        } else {
            e[i] == lower[i]
        }
}

/// An extension is recognised exactly when, ignoring the case of ASCII
/// letters, it is one of `3gp`, `3g2`, `asf`, `avi`, `divx`, `flv`, `m2ts`,
/// `m4v`, `mkv`, `mov`, `mp4`, `mpe`, `mpeg`, `mpg`, `mpv`, `mts`, `mxf`,
/// `ogm`, `ogv`, `ts`, `vob`, `webm` and `wmv`.
pub proof fn law_recognised_extensions(e: Seq<char>)
    ensures
        spec_is_video_extension(e) <==> {
            ||| equal_ignoring_ascii_case(e, "3gp"@)
            ||| equal_ignoring_ascii_case(e, "3g2"@)
            ||| equal_ignoring_ascii_case(e, "asf"@)
            ||| equal_ignoring_ascii_case(e, "avi"@)
            ||| equal_ignoring_ascii_case(e, "divx"@)
            ||| equal_ignoring_ascii_case(e, "flv"@)
            ||| equal_ignoring_ascii_case(e, "m2ts"@)
            ||| equal_ignoring_ascii_case(e, "m4v"@)
            ||| equal_ignoring_ascii_case(e, "mkv"@)
            ||| equal_ignoring_ascii_case(e, "mov"@)
            ||| equal_ignoring_ascii_case(e, "mp4"@)
            ||| equal_ignoring_ascii_case(e, "mpe"@)
            ||| equal_ignoring_ascii_case(e, "mpeg"@)
            ||| equal_ignoring_ascii_case(e, "mpg"@)
            ||| equal_ignoring_ascii_case(e, "mpv"@)
            ||| equal_ignoring_ascii_case(e, "mts"@)
            ||| equal_ignoring_ascii_case(e, "mxf"@)
            ||| equal_ignoring_ascii_case(e, "ogm"@)
            ||| equal_ignoring_ascii_case(e, "ogv"@)
            ||| equal_ignoring_ascii_case(e, "ts"@)
            ||| equal_ignoring_ascii_case(e, "vob"@)
            ||| equal_ignoring_ascii_case(e, "webm"@)
            ||| equal_ignoring_ascii_case(e, "wmv"@)
        },
{
    let lower = ascii_lower_chars(e);
    assert forall|l: Seq<char>| lower == l <==> #[trigger] equal_ignoring_ascii_case(e, l) by {
        lemma_lower_equal(e, l);
    }
    let list = video_extensions();
    assert(list.len() == 23);
    if list.contains(lower) {
        let k = choose|k: int| 0 <= k < list.len() && list[k] == lower;
        assert(equal_ignoring_ascii_case(e, list[k]));
    }
    assert(list[0] == "3gp"@);
    assert(list[22] == "wmv"@);
    if equal_ignoring_ascii_case(e, "3gp"@) { assert(list[0] == lower); }
    if equal_ignoring_ascii_case(e, "3g2"@) { assert(list[1] == lower); }
    if equal_ignoring_ascii_case(e, "asf"@) { assert(list[2] == lower); }
    if equal_ignoring_ascii_case(e, "avi"@) { assert(list[3] == lower); }
    if equal_ignoring_ascii_case(e, "divx"@) { assert(list[4] == lower); }
    if equal_ignoring_ascii_case(e, "flv"@) { assert(list[5] == lower); }
    if equal_ignoring_ascii_case(e, "m2ts"@) { assert(list[6] == lower); }
    if equal_ignoring_ascii_case(e, "m4v"@) { assert(list[7] == lower); }
    if equal_ignoring_ascii_case(e, "mkv"@) { assert(list[8] == lower); }
    if equal_ignoring_ascii_case(e, "mov"@) { assert(list[9] == lower); }
    if equal_ignoring_ascii_case(e, "mp4"@) { assert(list[10] == lower); }
    if equal_ignoring_ascii_case(e, "mpe"@) { assert(list[11] == lower); }
    if equal_ignoring_ascii_case(e, "mpeg"@) { assert(list[12] == lower); }
    if equal_ignoring_ascii_case(e, "mpg"@) { assert(list[13] == lower); }
    if equal_ignoring_ascii_case(e, "mpv"@) { assert(list[14] == lower); }
    if equal_ignoring_ascii_case(e, "mts"@) { assert(list[15] == lower); }
    if equal_ignoring_ascii_case(e, "mxf"@) { assert(list[16] == lower); }
    if equal_ignoring_ascii_case(e, "ogm"@) { assert(list[17] == lower); }
    if equal_ignoring_ascii_case(e, "ogv"@) { assert(list[18] == lower); }
    if equal_ignoring_ascii_case(e, "ts"@) { assert(list[19] == lower); }
    if equal_ignoring_ascii_case(e, "vob"@) { assert(list[20] == lower); }
    if equal_ignoring_ascii_case(e, "webm"@) { assert(list[21] == lower); }
    if equal_ignoring_ascii_case(e, "wmv"@) { assert(list[22] == lower); }
}

/// The ASCII lower case of `e` is `l` exactly when `e` equals `l` ignoring
/// the case of ASCII capitals.
proof fn lemma_lower_equal(e: Seq<char>, l: Seq<char>)
    ensures
        ascii_lower_chars(e) == l <==> equal_ignoring_ascii_case(e, l),
{
    broadcast use vstd::utf8::char_u32_cast;

    let lower = ascii_lower_chars(e);
    assert forall|i: int| 0 <= i < e.len() implies (lower[i] == l[i] <==> if 65 <= #[trigger] e[i]
        as u32 <= 90 {
        e[i] as u32 + 32 == l[i] as u32
    } else {
        e[i] == l[i]
    }) by {
        let c = e[i];
        if 65 <= c as u32 <= 90 {
            let u: u32 = (c as u32 + 32) as u32;
            assert(97 <= u <= 122);
            assert((u as char) as u32 == u);
            assert(lower[i] == u as char);
            char_u32_cast(l[i], l[i] as u32);
            if lower[i] == l[i] {
                assert(l[i] as u32 == u);
            }
            if u == l[i] as u32 {
                assert(l[i] == u as char);
            }
        }
    }
    if equal_ignoring_ascii_case(e, l) {
        assert(lower =~= l);
    }
}

} // verus!
