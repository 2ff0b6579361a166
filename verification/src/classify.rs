use vstd::prelude::*;

verus! {

use crate::util::{lower_chars, lower_vec, chars_eq, str_to_chars};

/// The extension of a file name: the characters after the last `.`, where a
/// leading dot (as in dotfiles) does not begin an extension. `None` when the
/// name has no extension at all.
pub open spec fn ext_opt(name: Seq<char>) -> Option<Seq<char>>
    decreases name.len(),
{
    if name.len() <= 1 {
        None
    } else if name.last() == '.' {
        Some(Seq::empty())
    } else {
        match ext_opt(name.drop_last()) {
            Some(e) => Some(e.push(name.last())),
            None => None,
        }
    }
}

/// The extension used for classification: the empty sequence when the name
/// has none.
pub open spec fn ext_of(name: Seq<char>) -> Seq<char> {
    match ext_opt(name) {
        Some(e) => e,
        None => Seq::empty(),
    }
}

/// If the last dot of `name` not in leading position sits at `k`, the
/// extension is everything after it.
pub proof fn lemma_ext_found(name: Seq<char>, k: int)
    requires
        1 <= k < name.len(),
        name[k] == '.',
        forall|j: int| k < j < name.len() ==> name[j] != '.',
    ensures
        ext_opt(name) == Some(name.subrange(k + 1, name.len() as int)),
    decreases name.len(),
{
    if k == name.len() - 1 {
        assert(name.subrange(k + 1, name.len() as int) =~= Seq::<char>::empty());
    } else {
        lemma_ext_found(name.drop_last(), k);
        assert(name.subrange(k + 1, name.len() as int) =~= name.drop_last().subrange(
            k + 1,
            name.len() - 1,
        ).push(name.last()));
    }
}

/// A name with no dot outside leading position has no extension.
pub proof fn lemma_ext_none(name: Seq<char>)
    requires
        forall|j: int| 1 <= j < name.len() ==> name[j] != '.',
    ensures
        ext_opt(name) is None,
    decreases name.len(),
{
    if name.len() > 1 {
        lemma_ext_none(name.drop_last());
    }
}

/// The fixed taxonomy, applied to a lowercase extension.
pub open spec fn type_of_ext(e: Seq<char>) -> Seq<char> {
    if e == "mp4"@ || e == "mov"@ || e == "avi"@ || e == "mkv"@ || e == "wmv"@ || e == "flv"@
        || e == "webm"@ {
        "video"@
    } else if e == "mp3"@ || e == "wav"@ || e == "aac"@ || e == "flac"@ || e == "ogg"@ || e
        == "m4a"@ {
        "audio"@
    } else if e == "jpg"@ || e == "jpeg"@ || e == "png"@ || e == "gif"@ || e == "bmp"@ || e
        == "svg"@ || e == "webp"@ || e == "heic"@ {
        "image"@
    } else if e == "swift"@ || e == "rs"@ || e == "js"@ || e == "ts"@ || e == "py"@ || e == "rb"@
        || e == "go"@ || e == "java"@ || e == "c"@ || e == "cpp"@ || e == "h"@ {
        "code"@
    } else if e == "zip"@ || e == "tar"@ || e == "gz"@ || e == "rar"@ || e == "7z"@ || e == "dmg"@
        || e == "iso"@ {
        "archive"@
    } else if e == "app"@ || e == "exe"@ || e == "dll"@ || e == "so"@ || e == "dylib"@ {
        "application"@
    } else if e == "plist"@ || e == "kext"@ {
        "system"@
    } else if e == "cache"@ || e == "tmp"@ || e == "log"@ {
        "cache"@
    } else if e == "pdf"@ || e == "doc"@ || e == "docx"@ || e == "txt"@ || e == "md"@ || e
        == "rtf"@ || e == "xls"@ || e == "xlsx"@ {
        "document"@
    } else {
        "other"@
    }
}

/// The file type of a name: the taxonomy applied to its lowercased extension.
pub open spec fn file_type_of(name: Seq<char>) -> Seq<char> {
    type_of_ext(lower_chars(ext_of(name)))
}

/// The extension of `name`, lowercased, as a character vector.
fn lower_ext_chars(name: &str) -> (r: Vec<char>)
    ensures
        r@ == lower_chars(ext_of(name@)),
{
    let v = str_to_chars(name);
    let n = v.len();
    // Find the last '.' strictly after the leading character.
    let mut k: usize = n;
    let mut i: usize = n;
    while i > 1
        invariant
            i <= n,
            n == v@.len(),
            v@ == name@,
            k == n || (1 <= k < n && v@[k as int] == '.' && forall|j: int|
                k < j < n ==> v@[j] != '.'),
            k < n || forall|j: int| i <= j < n ==> v@[j] != '.',
        decreases i,
    {
        i -= 1;
        if k == n && v[i] == '.' {
            k = i;
        }
    }
    if k == n {
        proof {
            lemma_ext_none(name@);
        }
        let empty: Vec<char> = Vec::new();
        proof {
            assert(empty@ =~= lower_chars(ext_of(name@)));
        }
        return empty;
    }
    proof {
        lemma_ext_found(name@, k as int);
    }
    let mut ext: Vec<char> = Vec::new();
    let mut j: usize = k + 1;
    while j < n
        invariant
            k + 1 <= j <= n,
            n == v@.len(),
            v@ == name@,
            ext@ == v@.subrange(k + 1, j as int),
        decreases n - j,
    {
        ext.push(v[j]);
        proof {
            assert(ext@ =~= v@.subrange(k + 1, j + 1));
        }
        j += 1;
    }
    assert(ext@ == ext_of(name@));
    lower_vec(&ext)
}

/// Classify a file name into the fixed type taxonomy by its lowercase
/// extension; names with no or unrecognized extension classify as `other`.
pub fn detect_file_type(name: &str) -> (t: String)
    ensures
        t@ == file_type_of(name@),
{
    let e = lower_ext_chars(name);
    let tag: &str = if chars_eq(&e, "mp4") || chars_eq(&e, "mov") || chars_eq(&e, "avi")
        || chars_eq(&e, "mkv") || chars_eq(&e, "wmv") || chars_eq(&e, "flv") || chars_eq(
        &e,
        "webm",
    ) {
        "video"
    } else if chars_eq(&e, "mp3") || chars_eq(&e, "wav") || chars_eq(&e, "aac") || chars_eq(
        &e,
        "flac",
    ) || chars_eq(&e, "ogg") || chars_eq(&e, "m4a") {
        "audio"
    } else if chars_eq(&e, "jpg") || chars_eq(&e, "jpeg") || chars_eq(&e, "png") || chars_eq(
        &e,
        "gif",
    ) || chars_eq(&e, "bmp") || chars_eq(&e, "svg") || chars_eq(&e, "webp") || chars_eq(
        &e,
        "heic",
    ) {
        "image"
    } else if chars_eq(&e, "swift") || chars_eq(&e, "rs") || chars_eq(&e, "js") || chars_eq(
        &e,
        "ts",
    ) || chars_eq(&e, "py") || chars_eq(&e, "rb") || chars_eq(&e, "go") || chars_eq(&e, "java")
        || chars_eq(&e, "c") || chars_eq(&e, "cpp") || chars_eq(&e, "h") {
        "code"
    } else if chars_eq(&e, "zip") || chars_eq(&e, "tar") || chars_eq(&e, "gz") || chars_eq(
        &e,
        "rar",
    ) || chars_eq(&e, "7z") || chars_eq(&e, "dmg") || chars_eq(&e, "iso") {
        "archive"
    } else if chars_eq(&e, "app") || chars_eq(&e, "exe") || chars_eq(&e, "dll") || chars_eq(
        &e,
        "so",
    ) || chars_eq(&e, "dylib") {
        "application"
    } else if chars_eq(&e, "plist") || chars_eq(&e, "kext") {
        "system"
    } else if chars_eq(&e, "cache") || chars_eq(&e, "tmp") || chars_eq(&e, "log") {
        "cache"
    } else if chars_eq(&e, "pdf") || chars_eq(&e, "doc") || chars_eq(&e, "docx") || chars_eq(
        &e,
        "txt",
    ) || chars_eq(&e, "md") || chars_eq(&e, "rtf") || chars_eq(&e, "xls") || chars_eq(&e, "xlsx") {
        "document"
    } else {
        "other"
    };
    tag.to_owned()
}

} // verus!
