//! Files of wikis, wherever they are: on Android some paths are the storage
//! framework's, and elsewhere none is.

use vstd::prelude::*;
use crate::folder_wiki_server;
use crate::path_module;
use crate::sanitize::Platform;
use crate::text;

verus! {

/// The storage framework has the file.
pub open spec fn is_stored(on_android: bool, path: Seq<char>) -> bool {
    on_android && folder_wiki_server::is_saf(path)
}

/// Whether the storage framework has the file.
pub fn goes_to_storage(on_android: bool, path: &str) -> (r: bool)
    ensures
        r == is_stored(on_android, path@),
{
    on_android && folder_wiki_server::is_saf_path(path)
}

/// The outcome is that of the storage framework, where it has the file, and else
/// that of the file system, whose failure is reported behind the prefix.
pub open spec fn is_outcome<T>(
    r: Result<T, String>,
    stored: bool,
    from_storage: Result<T, String>,
    from_files: Result<T, String>,
    prefix: Seq<char>,
) -> bool {
    if stored {
        match (from_storage, r) {
            (Ok(a), Ok(b)) => a == b,
            (Err(e), Err(f)) => f@ == e@,
            _ => false,
        }
    } else {
        match (from_files, r) {
            (Ok(a), Ok(b)) => a == b,
            (Err(e), Err(f)) => f@ == prefix + e@,
            _ => false,
        }
    }
}

fn outcome<T>(
    stored: bool,
    from_storage: Result<T, String>,
    from_files: Result<T, String>,
    prefix: &str,
) -> (r: Result<T, String>)
    ensures
        is_outcome(r, stored, from_storage, from_files, prefix@),
{
    if stored {
        from_storage
    } else {
        match from_files {
            Ok(v) => Ok(v),
            Err(e) => Err(text::concat(prefix, e.as_str())),
        }
    }
}

/// What reading a wiki comes to.
pub fn read_wiki_file(
    on_android: bool,
    path: &str,
    from_storage: Result<String, String>,
    from_files: Result<String, String>,
) -> (r: Result<String, String>)
    ensures
        is_outcome(
            r,
            is_stored(on_android, path@),
            from_storage,
            from_files,
            "Failed to read wiki file: "@,
        ),
{
    outcome(
        goes_to_storage(on_android, path),
        from_storage,
        from_files,
        "Failed to read wiki file: ",
    )
}

/// What reading a file of the application comes to: it is never the storage
/// framework's.
pub fn read_asset_file(read: Result<Vec<u8>, String>) -> (r: Result<Vec<u8>, String>)
    ensures
        is_outcome(r, false, read, read, "Failed to read asset: "@),
{
    match read {
        Ok(v) => Ok(v),
        Err(e) => Err(text::concat("Failed to read asset: ", e.as_str())),
    }
}

/// What reading a file comes to.
pub fn read_file(
    on_android: bool,
    path: &str,
    from_storage: Result<Vec<u8>, String>,
    from_files: Result<Vec<u8>, String>,
) -> (r: Result<Vec<u8>, String>)
    ensures
        is_outcome(
            r,
            is_stored(on_android, path@),
            from_storage,
            from_files,
            "Failed to read file: "@,
        ),
{
    outcome(goes_to_storage(on_android, path), from_storage, from_files, "Failed to read file: ")
}

/// Whether there is something at the path.
pub fn path_exists(on_android: bool, path: &str, in_storage: bool, in_files: bool) -> (r: bool)
    ensures
        r == if is_stored(on_android, path@) {
            in_storage
        } else {
            in_files
        },
{
    if goes_to_storage(on_android, path) {
        in_storage
    } else {
        in_files
    }
}

/// Whether there is a directory at the path.
pub fn is_directory(on_android: bool, path: &str, in_storage: bool, in_files: bool) -> (r: bool)
    ensures
        r == if is_stored(on_android, path@) {
            in_storage
        } else {
            in_files
        },
{
    if goes_to_storage(on_android, path) {
        in_storage
    } else {
        in_files
    }
}

/// What listing a directory comes to.
pub fn list_directory(
    on_android: bool,
    path: &str,
    from_storage: Result<Vec<String>, String>,
    from_files: Result<Vec<String>, String>,
) -> (r: Result<Vec<String>, String>)
    ensures
        is_outcome(
            r,
            is_stored(on_android, path@),
            from_storage,
            from_files,
            "Failed to read directory: "@,
        ),
{
    outcome(
        goes_to_storage(on_android, path),
        from_storage,
        from_files,
        "Failed to read directory: ",
    )
}

/// What making a directory comes to: in the storage framework directories come
/// with their files, so it succeeds.
pub fn create_dir_all(on_android: bool, path: &str, made: Result<(), String>) -> (r: Result<
    (),
    String,
>)
    ensures
        is_outcome(
            r,
            is_stored(on_android, path@),
            Ok(()),
            made,
            "Failed to create directory: "@,
        ),
{
    outcome(goes_to_storage(on_android, path), Ok(()), made, "Failed to create directory: ")
}

/// What copying a file comes to. On Android it has to be read first, and is then
/// written where it is to go; elsewhere `to_files` is what the file system made
/// of it.
pub fn copy_file(
    on_android: bool,
    from: &str,
    to: &str,
    from_storage: Result<Vec<u8>, String>,
    from_files: Result<Vec<u8>, String>,
    to_storage: Result<(), String>,
    to_files: Result<(), String>,
) -> (r: Result<(), String>)
    ensures
        match (on_android, is_stored(true, from@), from_storage, from_files) {
            (true, true, Err(e), _) => r is Err && r->Err_0@ == e@,
            (true, false, _, Err(e)) => r is Err && r->Err_0@ == "Failed to read file: "@ + e@,
            _ => is_outcome(
                r,
                is_stored(on_android, to@),
                to_storage,
                to_files,
                "Failed to copy file: "@,
            ),
        },
{
    if on_android {
        if let Err(e) = read_file(true, from, from_storage, from_files) {
            return Err(e);
        }
    }
    outcome(goes_to_storage(on_android, to), to_storage, to_files, "Failed to copy file: ")
}

/// What removing a file comes to.
pub fn remove_file(
    on_android: bool,
    path: &str,
    from_storage: Result<(), String>,
    from_files: Result<(), String>,
) -> (r: Result<(), String>)
    ensures
        is_outcome(
            r,
            is_stored(on_android, path@),
            from_storage,
            from_files,
            "Failed to remove file: "@,
        ),
{
    outcome(goes_to_storage(on_android, path), from_storage, from_files, "Failed to remove file: ")
}

/// What writing a wiki comes to on Android.
pub fn write_wiki_file_android(
    path: &str,
    to_storage: Result<(), String>,
    to_files: Result<(), String>,
) -> (r: Result<(), String>)
    ensures
        is_outcome(
            r,
            is_stored(true, path@),
            to_storage,
            to_files,
            "Failed to write wiki file: "@,
        ),
{
    outcome(goes_to_storage(true, path), to_storage, to_files, "Failed to write wiki file: ")
}

/// The file that a wiki is written to before it takes the wiki's place: the wiki
/// with another extension. On Windows a backslash parts directories too.
pub open spec fn temp_file(platform: Platform, path: Seq<char>) -> Seq<char> {
    if platform == Platform::Windows {
        let slashed = text::char_replaced(path, '\\', '/');
        let temp = path_module::with_other_extension(slashed, "tmp"@);
        if temp == slashed {
            path
        } else {
            path.take(temp.len() - 4) + ".tmp"@
        }
    } else {
        path_module::with_other_extension(path, "tmp"@)
    }
}

/// The file that a wiki is written to before it takes the wiki's place.
pub fn temp_path(platform: Platform, path: &str) -> (r: String)
    ensures
        r@ == temp_file(platform, path@),
{
    proof {
        reveal_strlit("tmp");
    }
    if platform == Platform::Windows {
        let slashed: String = text::replace_char(path, '\\', '/');
        let temp: String = path_module::with_extension(slashed.as_str(), "tmp");
        if text::same(temp.as_str(), slashed.as_str()) {
            return path.to_owned();
        }
        proof {
            path_module::lemma_other_extension_len(slashed@, "tmp"@);
        }
        let n: usize = temp.as_str().unicode_len();
        text::concat(text::take(path, n - 4), ".tmp")
    } else {
        path_module::with_extension(path, "tmp")
    }
}

/// The steps in which a wiki is written, so that it is never half there.
#[derive(Clone, Copy, PartialEq, Eq, Structural)]
pub enum WriteStep {
    WriteTemp,
    /// The new file takes the wiki's place.
    Rename,
    /// The new file is removed, and the wiki written over.
    WriteOver,
    Done,
    TempFailed,
    Failed,
}

/// The step after one that succeeded or failed.
pub open spec fn step_after(step: WriteStep, ok: bool) -> WriteStep {
    match step {
        WriteStep::WriteTemp => if ok {
            WriteStep::Rename
        } else {
            WriteStep::TempFailed
        },
        WriteStep::Rename => if ok {
            WriteStep::Done
        } else {
            WriteStep::WriteOver
        },
        WriteStep::WriteOver => if ok {
            WriteStep::Done
        } else {
            WriteStep::Failed
        },
        other => other,
    }
}

/// The step after one that succeeded or failed.
pub fn next_write_step(step: WriteStep, ok: bool) -> (r: WriteStep)
    ensures
        r == step_after(step, ok),
{
    match step {
        WriteStep::WriteTemp => {
            if ok {
                WriteStep::Rename
            } else {
                WriteStep::TempFailed
            }
        },
        WriteStep::Rename => {
            if ok {
                WriteStep::Done
            } else {
                WriteStep::WriteOver
            }
        },
        WriteStep::WriteOver => {
            if ok {
                WriteStep::Done
            } else {
                WriteStep::Failed
            }
        },
        other => other,
    }
}

/// What writing a wiki comes to, by the step that it ended with, and by the
/// failure where there was one.
pub fn write_wiki_file(last: WriteStep, failure: &str) -> (r: Result<(), String>)
    requires
        last == WriteStep::Done || last == WriteStep::TempFailed || last == WriteStep::Failed,
    ensures
        match r {
            Ok(_) => last == WriteStep::Done,
            Err(e) => (last == WriteStep::TempFailed && e@ == "Failed to write temp file: "@
                + failure@) || (last == WriteStep::Failed && e@ == "Failed to write wiki file: "@
                + failure@),
        },
{
    match last {
        WriteStep::TempFailed => Err(text::concat("Failed to write temp file: ", failure)),
        WriteStep::Failed => Err(text::concat("Failed to write wiki file: ", failure)),
        _ => Ok(()),
    }
}

/// What stands in the wiki's file after a step that succeeded or failed, where
/// a write over it that fails leaves something unknown.
pub open spec fn wiki_after(
    step: WriteStep,
    ok: bool,
    before: Option<Seq<char>>,
    content: Seq<char>,
) -> Option<Seq<char>> {
    match step {
        WriteStep::Rename => if ok {
            Some(content)
        } else {
            before
        },
        WriteStep::WriteOver => if ok {
            Some(content)
        } else {
            None
        },
        _ => before,
    }
}

/// Writing a wiki either ends well, with the new content in its file, or leaves
/// the file alone, unless both the renaming and the write over it failed.
pub proof fn law_wiki_is_never_half_written(
    temp_ok: bool,
    rename_ok: bool,
    over_ok: bool,
    before: Seq<char>,
    content: Seq<char>,
)
    ensures
        ({
            let s1 = step_after(WriteStep::WriteTemp, temp_ok);
            let f1 = wiki_after(WriteStep::WriteTemp, temp_ok, Some(before), content);
            let s2 = step_after(s1, rename_ok);
            let f2 = wiki_after(s1, rename_ok, f1, content);
            let s3 = step_after(s2, over_ok);
            let f3 = wiki_after(s2, over_ok, f2, content);
            &&& s3 == WriteStep::Done ==> f3 == Some(content)
            &&& s3 == WriteStep::TempFailed ==> f3 == Some(before)
            &&& s3 == WriteStep::Failed <==> (temp_ok && !rename_ok && !over_ok)
            &&& s3 == WriteStep::Done || s3 == WriteStep::TempFailed || s3 == WriteStep::Failed
        }),
{
}

/// The file that a wiki is written to first stands beside the wiki, under its name
/// with another extension, and so is never the wiki itself.
pub proof fn law_new_file_stands_beside_the_wiki(
    platform: Platform,
    dir: Seq<char>,
    stem: Seq<char>,
    ext: Seq<char>,
)
    requires
        platform != Platform::Windows,
        stem.len() > 0,
        !stem.contains('/'),
        !ext.contains('/'),
        !ext.contains('.'),
        ext.len() > 0,
        ext != "tmp"@,
        dir.len() > 0,
        dir.last() != '/',
        dir.last() != '.',
    ensures
        temp_file(platform, dir.push('/') + (stem.push('.') + ext)) == dir.push('/') + (stem + "."@
            + "tmp"@),
        temp_file(platform, dir.push('/') + (stem.push('.') + ext)) != dir.push('/') + (stem.push(
            '.',
        ) + ext),
{
    reveal_strlit(".");
    path_module::law_extension_follows_the_last_dot(dir, stem, ext, "tmp"@);
    let a = dir.push('/') + (stem + "."@ + "tmp"@);
    let b = dir.push('/') + (stem.push('.') + ext);
    if a == b {
        let n = dir.len() + 1 + stem.len() + 1;
        assert(a.skip(n as int) =~= "tmp"@);
        assert(b.skip(n as int) =~= ext);
    }
}

/// What the storage framework has is read and written there, and on other systems,
/// and for other paths, the file system is asked.
pub proof fn law_stored_files_are_stored(rest: Seq<char>)
    ensures
        is_stored(true, "content://"@ + rest),
        !is_stored(false, "content://"@ + rest),
        !is_stored(true, seq!['/'] + rest),
{
    folder_wiki_server::law_paths_have_one_home(rest);
}

/// Writing a wiki goes by the new file: it is written, then it takes the wiki's
/// place; only where that fails is the wiki written over.
pub proof fn law_new_file_takes_the_place(ok: bool)
    ensures
        step_after(WriteStep::WriteTemp, true) == WriteStep::Rename,
        step_after(step_after(WriteStep::WriteTemp, true), true) == WriteStep::Done,
        step_after(step_after(WriteStep::WriteTemp, true), false) == WriteStep::WriteOver,
        step_after(WriteStep::WriteTemp, false) == WriteStep::TempFailed,
        step_after(WriteStep::WriteOver, ok) == (if ok {
            WriteStep::Done
        } else {
            WriteStep::Failed
        }),
        step_after(WriteStep::Done, ok) == WriteStep::Done,
        step_after(WriteStep::Failed, ok) == WriteStep::Failed,
{
}

} // verus!
