//! The MIME types of files, by their names.

use vstd::prelude::*;
use crate::outside;
use crate::text;

verus! {

/// What follows the last `c` of a name; the whole name where there is none.
pub open spec fn after_last(name: Seq<char>, c: char) -> Seq<char> {
    match text::last_index_of(name, c) {
        Some(i) => name.skip(i + 1),
        None => name,
    }
}

/// What follows the last `c` of a name.
pub fn part_after_last(name: &str, c: char) -> (r: &str)
    ensures
        r@ == after_last(name@, c),
{
    match text::rfind_char(name, c) {
        Some(i) => text::skip(name, i + 1),
        None => name,
    }
}

/// The MIME type for a file extension in lower case.
pub open spec fn mime_for(ext: Seq<char>) -> Seq<char> {
    if ext == "html"@ || ext == "htm"@ {
        "text/html"@
    } else if ext == "css"@ {
        "text/css"@
    } else if ext == "js"@ {
        "application/javascript"@
    } else if ext == "json"@ {
        "application/json"@
    } else if ext == "txt"@ {
        "text/plain"@
    } else if ext == "xml"@ {
        "application/xml"@
    } else if ext == "md"@ {
        "text/markdown"@
    } else if ext == "tid"@ {
        "text/vnd.tiddlywiki"@
    } else if ext == "png"@ {
        "image/png"@
    } else if ext == "jpg"@ || ext == "jpeg"@ {
        "image/jpeg"@
    } else if ext == "gif"@ {
        "image/gif"@
    } else if ext == "svg"@ {
        "image/svg+xml"@
    } else if ext == "webp"@ {
        "image/webp"@
    } else if ext == "ico"@ {
        "image/x-icon"@
    } else if ext == "bmp"@ {
        "image/bmp"@
    } else if ext == "tiff"@ || ext == "tif"@ {
        "image/tiff"@
    } else if ext == "heic"@ || ext == "heif"@ {
        "image/heic"@
    } else if ext == "mp3"@ {
        "audio/mpeg"@
    } else if ext == "m4a"@ {
        "audio/mp4"@
    } else if ext == "aac"@ {
        "audio/aac"@
    } else if ext == "ogg"@ || ext == "oga"@ {
        "audio/ogg"@
    } else if ext == "opus"@ {
        "audio/opus"@
    } else if ext == "wav"@ {
        "audio/wav"@
    } else if ext == "flac"@ {
        "audio/flac"@
    } else if ext == "aiff"@ || ext == "aif"@ {
        "audio/aiff"@
    } else if ext == "wma"@ {
        "audio/x-ms-wma"@
    } else if ext == "mid"@ || ext == "midi"@ {
        "audio/midi"@
    } else if ext == "mp4"@ || ext == "m4v"@ {
        "video/mp4"@
    } else if ext == "webm"@ {
        "video/webm"@
    } else if ext == "ogv"@ {
        "video/ogg"@
    } else if ext == "avi"@ {
        "video/x-msvideo"@
    } else if ext == "mov"@ {
        "video/quicktime"@
    } else if ext == "wmv"@ {
        "video/x-ms-wmv"@
    } else if ext == "mkv"@ {
        "video/x-matroska"@
    } else if ext == "3gp"@ {
        "video/3gpp"@
    } else if ext == "woff"@ {
        "font/woff"@
    } else if ext == "woff2"@ {
        "font/woff2"@
    } else if ext == "ttf"@ {
        "font/ttf"@
    } else if ext == "otf"@ {
        "font/otf"@
    } else if ext == "eot"@ {
        "application/vnd.ms-fontobject"@
    } else if ext == "pdf"@ {
        "application/pdf"@
    } else if ext == "doc"@ {
        "application/msword"@
    } else if ext == "docx"@ {
        "application/vnd.openxmlformats-officedocument.wordprocessingml.document"@
    } else if ext == "xls"@ {
        "application/vnd.ms-excel"@
    } else if ext == "xlsx"@ {
        "application/vnd.openxmlformats-officedocument.spreadsheetml.sheet"@
    } else if ext == "ppt"@ {
        "application/vnd.ms-powerpoint"@
    } else if ext == "pptx"@ {
        "application/vnd.openxmlformats-officedocument.presentationml.presentation"@
    } else if ext == "zip"@ {
        "application/zip"@
    } else if ext == "tar"@ {
        "application/x-tar"@
    } else if ext == "gz"@ || ext == "gzip"@ {
        "application/gzip"@
    } else if ext == "rar"@ {
        "application/vnd.rar"@
    } else if ext == "7z"@ {
        "application/x-7z-compressed"@
    } else {
        "application/octet-stream"@
    }
}

/// The MIME type of a file, by its name.
pub open spec fn mime_of_file(name: Seq<char>) -> Seq<char> {
    mime_for(outside::lowercase(after_last(name, '.')))
}

/// The MIME type for a file extension in lower case.
pub fn mime_for_extension(ext: &str) -> (r: &'static str)
    ensures
        r@ == mime_for(ext@),
{
    if text::same(ext, "html") || text::same(ext, "htm") {
        "text/html"
    } else if text::same(ext, "css") {
        "text/css"
    } else if text::same(ext, "js") {
        "application/javascript"
    } else if text::same(ext, "json") {
        "application/json"
    } else if text::same(ext, "txt") {
        "text/plain"
    } else if text::same(ext, "xml") {
        "application/xml"
    } else if text::same(ext, "md") {
        "text/markdown"
    } else if text::same(ext, "tid") {
        "text/vnd.tiddlywiki"
    } else if text::same(ext, "png") {
        "image/png"
    } else if text::same(ext, "jpg") || text::same(ext, "jpeg") {
        "image/jpeg"
    } else if text::same(ext, "gif") {
        "image/gif"
    } else if text::same(ext, "svg") {
        "image/svg+xml"
    } else if text::same(ext, "webp") {
        "image/webp"
    } else if text::same(ext, "ico") {
        "image/x-icon"
    } else if text::same(ext, "bmp") {
        "image/bmp"
    } else if text::same(ext, "tiff") || text::same(ext, "tif") {
        "image/tiff"
    } else if text::same(ext, "heic") || text::same(ext, "heif") {
        "image/heic"
    } else if text::same(ext, "mp3") {
        "audio/mpeg"
    } else if text::same(ext, "m4a") {
        "audio/mp4"
    } else if text::same(ext, "aac") {
        "audio/aac"
    } else if text::same(ext, "ogg") || text::same(ext, "oga") {
        "audio/ogg"
    } else if text::same(ext, "opus") {
        "audio/opus"
    } else if text::same(ext, "wav") {
        "audio/wav"
    } else if text::same(ext, "flac") {
        "audio/flac"
    } else if text::same(ext, "aiff") || text::same(ext, "aif") {
        "audio/aiff"
    } else if text::same(ext, "wma") {
        "audio/x-ms-wma"
    } else if text::same(ext, "mid") || text::same(ext, "midi") {
        "audio/midi"
    } else if text::same(ext, "mp4") || text::same(ext, "m4v") {
        "video/mp4"
    } else if text::same(ext, "webm") {
        "video/webm"
    } else if text::same(ext, "ogv") {
        "video/ogg"
    } else if text::same(ext, "avi") {
        "video/x-msvideo"
    } else if text::same(ext, "mov") {
        "video/quicktime"
    } else if text::same(ext, "wmv") {
        "video/x-ms-wmv"
    } else if text::same(ext, "mkv") {
        "video/x-matroska"
    } else if text::same(ext, "3gp") {
        "video/3gpp"
    } else if text::same(ext, "woff") {
        "font/woff"
    } else if text::same(ext, "woff2") {
        "font/woff2"
    } else if text::same(ext, "ttf") {
        "font/ttf"
    } else if text::same(ext, "otf") {
        "font/otf"
    } else if text::same(ext, "eot") {
        "application/vnd.ms-fontobject"
    } else if text::same(ext, "pdf") {
        "application/pdf"
    } else if text::same(ext, "doc") {
        "application/msword"
    } else if text::same(ext, "docx") {
        "application/vnd.openxmlformats-officedocument.wordprocessingml.document"
    } else if text::same(ext, "xls") {
        "application/vnd.ms-excel"
    } else if text::same(ext, "xlsx") {
        "application/vnd.openxmlformats-officedocument.spreadsheetml.sheet"
    } else if text::same(ext, "ppt") {
        "application/vnd.ms-powerpoint"
    } else if text::same(ext, "pptx") {
        "application/vnd.openxmlformats-officedocument.presentationml.presentation"
    } else if text::same(ext, "zip") {
        "application/zip"
    } else if text::same(ext, "tar") {
        "application/x-tar"
    } else if text::same(ext, "gz") || text::same(ext, "gzip") {
        "application/gzip"
    } else if text::same(ext, "rar") {
        "application/vnd.rar"
    } else if text::same(ext, "7z") {
        "application/x-7z-compressed"
    } else {
        "application/octet-stream"
    }
}

/// The MIME type of a file, by its name.
pub fn guess_mime_type(filename: &str) -> (r: String)
    ensures
        r@ == mime_of_file(filename@),
        vstd::utf8::is_ascii_chars(after_last(filename@, '.')) ==> r@ == mime_for(
            text::ascii_lowered(after_last(filename@, '.')),
        ),
{
    let ext: String = outside::to_lowercase(part_after_last(filename, '.'));
    mime_for_extension(ext.as_str()).to_owned()
}

/// A number that differs for extensions of up to five characters that differ.
pub(crate) open spec fn weight(s: Seq<char>) -> int {
    char_at(s, 0) + 1000 * char_at(s, 1) + 1000000 * char_at(s, 2) + 1000000000 * char_at(s, 3)
        + 1000000000000 * char_at(s, 4)
}

pub(crate) open spec fn char_at(s: Seq<char>, i: int) -> int {
    if i < s.len() {
        s[i] as int
    } else {
        0
    }
}

pub(crate) proof fn lemma_weights()
    ensures
        weight("html"@) == 108109116104,
        weight("htm"@) == 109116104,
        weight("css"@) == 115115099,
        weight("js"@) == 115106,
        weight("json"@) == 110111115106,
        weight("txt"@) == 116120116,
        weight("xml"@) == 108109120,
        weight("md"@) == 100109,
        weight("tid"@) == 100105116,
        weight("png"@) == 103110112,
        weight("jpg"@) == 103112106,
        weight("jpeg"@) == 103101112106,
        weight("gif"@) == 102105103,
        weight("svg"@) == 103118115,
        weight("webp"@) == 112098101119,
        weight("ico"@) == 111099105,
        weight("bmp"@) == 112109098,
        weight("tiff"@) == 102102105116,
        weight("tif"@) == 102105116,
        weight("heic"@) == 99105101104,
        weight("heif"@) == 102105101104,
        weight("mp3"@) == 51112109,
        weight("m4a"@) == 97052109,
        weight("aac"@) == 99097097,
        weight("ogg"@) == 103103111,
        weight("oga"@) == 97103111,
        weight("opus"@) == 115117112111,
        weight("wav"@) == 118097119,
        weight("flac"@) == 99097108102,
        weight("aiff"@) == 102102105097,
        weight("aif"@) == 102105097,
        weight("wma"@) == 97109119,
        weight("mid"@) == 100105109,
        weight("midi"@) == 105100105109,
        weight("mp4"@) == 52112109,
        weight("m4v"@) == 118052109,
        weight("webm"@) == 109098101119,
        weight("ogv"@) == 118103111,
        weight("avi"@) == 105118097,
        weight("mov"@) == 118111109,
        weight("wmv"@) == 118109119,
        weight("mkv"@) == 118107109,
        weight("3gp"@) == 112103051,
        weight("woff"@) == 102102111119,
        weight("woff2"@) == 50102102111119,
        weight("ttf"@) == 102116116,
        weight("otf"@) == 102116111,
        weight("eot"@) == 116111101,
        weight("pdf"@) == 102100112,
        weight("doc"@) == 99111100,
        weight("docx"@) == 120099111100,
        weight("xls"@) == 115108120,
        weight("xlsx"@) == 120115108120,
        weight("ppt"@) == 116112112,
        weight("pptx"@) == 120116112112,
        weight("zip"@) == 112105122,
        weight("tar"@) == 114097116,
        weight("gz"@) == 122103,
        weight("gzip"@) == 112105122103,
        weight("rar"@) == 114097114,
        weight("7z"@) == 122055,
{
    reveal_strlit("html");
    reveal_strlit("htm");
    reveal_strlit("css");
    reveal_strlit("js");
    reveal_strlit("json");
    reveal_strlit("txt");
    reveal_strlit("xml");
    reveal_strlit("md");
    reveal_strlit("tid");
    reveal_strlit("png");
    reveal_strlit("jpg");
    reveal_strlit("jpeg");
    reveal_strlit("gif");
    reveal_strlit("svg");
    reveal_strlit("webp");
    reveal_strlit("ico");
    reveal_strlit("bmp");
    reveal_strlit("tiff");
    reveal_strlit("tif");
    reveal_strlit("heic");
    reveal_strlit("heif");
    reveal_strlit("mp3");
    reveal_strlit("m4a");
    reveal_strlit("aac");
    reveal_strlit("ogg");
    reveal_strlit("oga");
    reveal_strlit("opus");
    reveal_strlit("wav");
    reveal_strlit("flac");
    reveal_strlit("aiff");
    reveal_strlit("aif");
    reveal_strlit("wma");
    reveal_strlit("mid");
    reveal_strlit("midi");
    reveal_strlit("mp4");
    reveal_strlit("m4v");
    reveal_strlit("webm");
    reveal_strlit("ogv");
    reveal_strlit("avi");
    reveal_strlit("mov");
    reveal_strlit("wmv");
    reveal_strlit("mkv");
    reveal_strlit("3gp");
    reveal_strlit("woff");
    reveal_strlit("woff2");
    reveal_strlit("ttf");
    reveal_strlit("otf");
    reveal_strlit("eot");
    reveal_strlit("pdf");
    reveal_strlit("doc");
    reveal_strlit("docx");
    reveal_strlit("xls");
    reveal_strlit("xlsx");
    reveal_strlit("ppt");
    reveal_strlit("pptx");
    reveal_strlit("zip");
    reveal_strlit("tar");
    reveal_strlit("gz");
    reveal_strlit("gzip");
    reveal_strlit("rar");
    reveal_strlit("7z");
}

/// Pictures are known by their extensions, and are served under their own types.
pub proof fn law_image_types()
    ensures
        mime_for("png"@) == "image/png"@,
        mime_for("jpg"@) == "image/jpeg"@,
        mime_for("jpeg"@) == "image/jpeg"@,
        mime_for("gif"@) == "image/gif"@,
        mime_for("svg"@) == "image/svg+xml"@,
        mime_for("webp"@) == "image/webp"@,
        mime_for("ico"@) == "image/x-icon"@,
        mime_for("bmp"@) == "image/bmp"@,
        mime_for("tiff"@) == "image/tiff"@,
        mime_for("tif"@) == "image/tiff"@,
        mime_for("heic"@) == "image/heic"@,
        mime_for("heif"@) == "image/heic"@,
{
    lemma_weights();
}

/// Sounds are known by their extensions, and are served under their own types.
pub proof fn law_audio_types()
    ensures
        mime_for("mp3"@) == "audio/mpeg"@,
        mime_for("m4a"@) == "audio/mp4"@,
        mime_for("aac"@) == "audio/aac"@,
        mime_for("ogg"@) == "audio/ogg"@,
        mime_for("oga"@) == "audio/ogg"@,
        mime_for("opus"@) == "audio/opus"@,
        mime_for("wav"@) == "audio/wav"@,
        mime_for("flac"@) == "audio/flac"@,
        mime_for("aiff"@) == "audio/aiff"@,
        mime_for("aif"@) == "audio/aiff"@,
        mime_for("wma"@) == "audio/x-ms-wma"@,
        mime_for("mid"@) == "audio/midi"@,
        mime_for("midi"@) == "audio/midi"@,
{
    lemma_weights();
}

/// Films are known by their extensions, and are served under their own types.
pub proof fn law_video_types()
    ensures
        mime_for("mp4"@) == "video/mp4"@,
        mime_for("m4v"@) == "video/mp4"@,
        mime_for("webm"@) == "video/webm"@,
        mime_for("ogv"@) == "video/ogg"@,
        mime_for("avi"@) == "video/x-msvideo"@,
        mime_for("mov"@) == "video/quicktime"@,
        mime_for("wmv"@) == "video/x-ms-wmv"@,
        mime_for("mkv"@) == "video/x-matroska"@,
        mime_for("3gp"@) == "video/3gpp"@,
{
    lemma_weights();
}

/// Fonts are known by their extensions, and are served under their own types.
pub proof fn law_font_types()
    ensures
        mime_for("woff"@) == "font/woff"@,
        mime_for("woff2"@) == "font/woff2"@,
        mime_for("ttf"@) == "font/ttf"@,
        mime_for("otf"@) == "font/otf"@,
        mime_for("eot"@) == "application/vnd.ms-fontobject"@,
{
    lemma_weights();
}

/// Pages, scripts and texts are known by their extensions, and are served under their own types.
pub proof fn law_page_types()
    ensures
        mime_for("html"@) == "text/html"@,
        mime_for("htm"@) == "text/html"@,
        mime_for("css"@) == "text/css"@,
        mime_for("js"@) == "application/javascript"@,
        mime_for("json"@) == "application/json"@,
        mime_for("txt"@) == "text/plain"@,
        mime_for("xml"@) == "application/xml"@,
        mime_for("md"@) == "text/markdown"@,
        mime_for("tid"@) == "text/vnd.tiddlywiki"@,
{
    lemma_weights();
}

/// Documents and archives are known by their extensions, and are served under their own types.
pub proof fn law_document_types()
    ensures
        mime_for("pdf"@) == "application/pdf"@,
        mime_for("doc"@) == "application/msword"@,
        mime_for("docx"@) == "application/vnd.openxmlformats-officedocument.wordprocessingml.document"@,
        mime_for("xls"@) == "application/vnd.ms-excel"@,
        mime_for("xlsx"@) == "application/vnd.openxmlformats-officedocument.spreadsheetml.sheet"@,
        mime_for("ppt"@) == "application/vnd.ms-powerpoint"@,
        mime_for("pptx"@) == "application/vnd.openxmlformats-officedocument.presentationml.presentation"@,
        mime_for("zip"@) == "application/zip"@,
        mime_for("tar"@) == "application/x-tar"@,
        mime_for("gz"@) == "application/gzip"@,
        mime_for("gzip"@) == "application/gzip"@,
        mime_for("rar"@) == "application/vnd.rar"@,
        mime_for("7z"@) == "application/x-7z-compressed"@,
{
    lemma_weights();
}

/// The extension, which is what follows the last dot of a name and the whole name
/// where there is none, decides the type alone.
pub proof fn law_extension_decides(base: Seq<char>, ext: Seq<char>)
    requires
        !ext.contains('.'),
    ensures
        after_last(base.push('.') + ext, '.') == ext,
        mime_of_file(base.push('.') + ext) == mime_for(outside::lowercase(ext)),
        mime_of_file(ext) == mime_for(outside::lowercase(ext)),
{
    let name = base.push('.') + ext;
    let n = base.len() as int;
    text::lemma_last_index_of(name, '.');
    text::lemma_last_index_of(ext, '.');
    assert(name[n] == '.');
    assert(text::last_index_of(name, '.') == Some(n)) by {
        match text::last_index_of(name, '.') {
            Some(i) => {
                if i > n {
                    assert(name[i] == ext[i - n - 1]);
                }
            },
            None => {},
        }
    }
    assert(name.skip(n + 1) =~= ext);
}

} // verus!
