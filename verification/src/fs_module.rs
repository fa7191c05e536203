//! The `fs` module that scripts see: what its functions answer, by what the
//! storage framework did.

use vstd::prelude::*;
use crate::outside;
use crate::text;

verus! {

/// An error as scripts see it: a code and a message.
pub open spec fn fs_error(code: Seq<char>, message: Seq<char>) -> Seq<char> {
    code + ": "@ + message
}

fn make_fs_error(code: &str, message: &str) -> (r: String)
    ensures
        r@ == fs_error(code@, message@),
{
    text::concat3(code, ": ", message)
}

/// The message that something failed with a path, and why.
pub open spec fn failure(what: Seq<char>, path: Seq<char>, why: Seq<char>) -> Seq<char> {
    what + path + ": "@ + why
}

fn report(code: &str, what: &str, path: &str, why: &str) -> (r: String)
    ensures
        r@ == fs_error(code@, failure(what@, path@, why@)),
{
    let mut message: String = text::concat3(what, path, ": ");
    message.append(why);
    make_fs_error(code, message.as_str())
}

/// The options that a script gives with a path.
pub enum Options {
    Missing,
    Text(String),
    /// An object, with its encoding where that is a string.
    Object(Option<String>),
    Other,
}

/// The encoding that the options name.
pub open spec fn encoding_of(o: Options) -> Option<Seq<char>> {
    match o {
        Options::Text(s) => Some(s@),
        Options::Object(Some(s)) => Some(s@),
        _ => None,
    }
}

/// The encoding that the options name.
pub fn get_encoding_option(options: &Options) -> (r: Option<String>)
    ensures
        text::opt_view(r) == encoding_of(*options),
{
    match options {
        Options::Text(s) => Some(s.clone()),
        Options::Object(Some(s)) => Some(s.clone()),
        _ => None,
    }
}

/// How a file is read.
#[derive(Clone, Copy, PartialEq, Eq, Structural)]
pub enum ReadMode {
    Text,
    Bytes,
}

/// How a file is read: as text where the encoding is UTF-8, as bytes where none
/// is named; another encoding is refused.
pub fn read_mode(options: &Options) -> (r: Result<ReadMode, String>)
    ensures
        match encoding_of(*options) {
            None => r == Ok::<ReadMode, String>(ReadMode::Bytes),
            Some(e) => if e == "utf8"@ || e == "utf-8"@ {
                r == Ok::<ReadMode, String>(ReadMode::Text)
            } else {
                r is Err && r->Err_0@ == fs_error(
                    "ERR_INVALID_ARG_VALUE"@,
                    "Unknown encoding: "@ + e,
                )
            },
        },
{
    match get_encoding_option(options) {
        None => Ok(ReadMode::Bytes),
        Some(e) => {
            if text::same(e.as_str(), "utf8") || text::same(e.as_str(), "utf-8") {
                Ok(ReadMode::Text)
            } else {
                let message: String = text::concat("Unknown encoding: ", e.as_str());
                Err(make_fs_error("ERR_INVALID_ARG_VALUE", message.as_str()))
            }
        },
    }
}

/// What reading a file answers.
pub fn read_file_sync<T>(path: &str, read: Result<T, String>) -> (r: Result<T, String>)
    ensures
        match (read, r) {
            (Ok(a), Ok(b)) => a == b,
            (Err(e), Err(f)) => f@ == fs_error(
                "ENOENT"@,
                failure("Failed to read "@, path@, e@),
            ),
            _ => false,
        },
{
    match read {
        Ok(v) => Ok(v),
        Err(e) => Err(report("ENOENT", "Failed to read ", path, e.as_str())),
    }
}

/// What a script hands over to be written.
pub enum FileData {
    Text(String),
    Bytes(Vec<u8>),
    Other,
}

/// The text that is written: bytes are decoded, and what is neither text nor
/// bytes counts as nothing.
pub open spec fn data_text(d: FileData) -> Seq<char> {
    match d {
        FileData::Text(s) => s@,
        FileData::Bytes(b) => outside::utf8_lossy_decoded(b@),
        FileData::Other => ""@,
    }
}

/// The text that is written.
pub fn text_of_data(data: &FileData) -> (r: String)
    ensures
        r@ == data_text(*data),
        *data is Bytes && vstd::utf8::valid_utf8((*data)->Bytes_0@) ==> r@
            == vstd::utf8::decode_utf8((*data)->Bytes_0@),
{
    match data {
        FileData::Text(s) => s.clone(),
        FileData::Bytes(b) => outside::utf8_lossy(b.as_slice()),
        FileData::Other => "".to_owned(),
    }
}

/// What writing a file answers.
pub fn write_file_sync(path: &str, written: Result<(), String>) -> (r: Result<(), String>)
    ensures
        match (written, r) {
            (Ok(_), Ok(_)) => true,
            (Err(e), Err(f)) => f@ == fs_error(
                "EACCES"@,
                failure("Failed to write "@, path@, e@),
            ),
            _ => false,
        },
{
    match written {
        Ok(_) => Ok(()),
        Err(e) => Err(report("EACCES", "Failed to write ", path, e.as_str())),
    }
}

/// What is said of a file or directory.
pub struct Stats {
    pub size: i64,
    pub mode: i32,
    pub is_directory: bool,
    pub is_file: bool,
}

/// What is said of a file or directory: that it is missing, or what it is. Its
/// size is not known.
pub fn stat_sync(path: &str, exists: bool, is_directory: bool) -> (r: Result<Stats, String>)
    ensures
        match r {
            Ok(s) => {
                &&& exists
                &&& s.size == 0
                &&& s.mode == if is_directory {
                    0o755i32
                } else {
                    0o644i32
                }
                &&& s.is_directory == is_directory
                &&& s.is_file == !is_directory
            },
            Err(e) => !exists && e@ == fs_error(
                "ENOENT"@,
                "No such file or directory: "@ + path@,
            ),
        },
{
    if !exists {
        let message: String = text::concat("No such file or directory: ", path);
        return Err(make_fs_error("ENOENT", message.as_str()));
    }
    Ok(
        Stats {
            size: 0,
            mode: if is_directory {
                0o755
            } else {
                0o644
            },
            is_directory,
            is_file: !is_directory,
        },
    )
}

/// What listing a directory answers.
pub fn readdir_sync(path: &str, listed: Result<Vec<String>, String>) -> (r: Result<
    Vec<String>,
    String,
>)
    ensures
        match (listed, r) {
            (Ok(a), Ok(b)) => a == b,
            (Err(e), Err(f)) => f@ == fs_error(
                "ENOENT"@,
                failure("Failed to read directory "@, path@, e@),
            ),
            _ => false,
        },
{
    match listed {
        Ok(v) => Ok(v),
        Err(e) => Err(report("ENOENT", "Failed to read directory ", path, e.as_str())),
    }
}

/// What making a directory answers: it always succeeds, since directories come
/// with the files in them.
pub fn mkdir_sync(_path: &str) -> (r: Result<(), String>)
    ensures
        r is Ok,
{
    Ok(())
}

/// What deleting a file answers.
pub fn unlink_sync(path: &str, deleted: Result<(), String>) -> (r: Result<(), String>)
    ensures
        match (deleted, r) {
            (Ok(_), Ok(_)) => true,
            (Err(e), Err(f)) => f@ == fs_error(
                "ENOENT"@,
                failure("Failed to delete "@, path@, e@),
            ),
            _ => false,
        },
{
    match deleted {
        Ok(_) => Ok(()),
        Err(e) => Err(report("ENOENT", "Failed to delete ", path, e.as_str())),
    }
}

/// What removing a directory answers.
pub fn rmdir_sync(path: &str, deleted: Result<(), String>) -> (r: Result<(), String>)
    ensures
        match (deleted, r) {
            (Ok(_), Ok(_)) => true,
            (Err(e), Err(f)) => f@ == fs_error(
                "ENOENT"@,
                failure("Failed to remove directory "@, path@, e@),
            ),
            _ => false,
        },
{
    match deleted {
        Ok(_) => Ok(()),
        Err(e) => Err(report("ENOENT", "Failed to remove directory ", path, e.as_str())),
    }
}

/// What copying a file answers: it is read, and written only if that succeeded.
pub fn copy_file_sync(
    src: &str,
    dest: &str,
    read: Result<Vec<u8>, String>,
    written: Result<(), String>,
) -> (r: Result<(), String>)
    ensures
        match (read, written, r) {
            (Err(e), _, Err(f)) => f@ == fs_error("ENOENT"@, failure("Failed to read "@, src@, e@)),
            (Ok(_), Err(e), Err(f)) => f@ == fs_error(
                "EACCES"@,
                failure("Failed to write "@, dest@, e@),
            ),
            (Ok(_), Ok(_), Ok(_)) => true,
            _ => false,
        },
{
    match read {
        Err(e) => Err(report("ENOENT", "Failed to read ", src, e.as_str())),
        Ok(_) => match written {
            Err(e) => Err(report("EACCES", "Failed to write ", dest, e.as_str())),
            Ok(_) => Ok(()),
        },
    }
}

/// What moving a file answers; it succeeded only where the file was copied, and
/// only then is the old one to be deleted.
pub fn rename_sync(
    old_path: &str,
    new_path: &str,
    read: Result<Vec<u8>, String>,
    written: Result<(), String>,
) -> (r: Result<(), String>)
    ensures
        match (read, written, r) {
            (Err(e), _, Err(f)) => f@ == fs_error(
                "ENOENT"@,
                failure("Failed to read "@, old_path@, e@),
            ),
            (Ok(_), Err(e), Err(f)) => f@ == fs_error(
                "EACCES"@,
                failure("Failed to write "@, new_path@, e@),
            ),
            (Ok(_), Ok(_), Ok(_)) => true,
            _ => false,
        },
{
    copy_file_sync(old_path, new_path, read, written)
}

/// What is reported of a failure begins with its code, names the path behind what
/// was tried, and ends with the reason.
pub proof fn law_reports_name_path_and_reason(
    code: Seq<char>,
    what: Seq<char>,
    path: Seq<char>,
    why: Seq<char>,
)
    ensures
        ({
            let r = fs_error(code, failure(what, path, why));
            let at = code.len() + 2 + what.len();
            &&& r.len() == code.len() + what.len() + path.len() + why.len() + 4
            &&& r.take(code.len() as int) == code
            &&& r.subrange(code.len() as int + 2, at as int) == what
            &&& r.subrange(at as int, (at + path.len()) as int) == path
            &&& r.skip((at + path.len() + 2) as int) == why
        }),
{
    reveal_strlit(": ");
    let r = fs_error(code, failure(what, path, why));
    let at = code.len() + 2 + what.len();
    assert(r.take(code.len() as int) =~= code);
    assert(r.subrange(code.len() as int + 2, at as int) =~= what);
    assert(r.subrange(at as int, (at + path.len()) as int) =~= path);
    assert(r.skip((at + path.len() + 2) as int) =~= why);
}

} // verus!
