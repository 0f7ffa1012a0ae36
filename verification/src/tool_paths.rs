//! The metadata tool: where its executable is looked for (its file name,
//! the platform directory, the `PATH` entries, and the relative places
//! under the user's configuration folder, the program's folders and the
//! working folders), the command sent to its resident process, and which
//! of its fields are kept. The file system and the process are handled
//! outside this library.
use vstd::prelude::*;
use crate::text::{chars_of, chars_eq, extend_str, string_of};

verus! {

/// The executable's file name on a platform.
pub fn exiftool_exe_name(is_windows: bool) -> (r: &'static str)
    ensures
        r@ == (if is_windows {
            "exiftool.exe"@
        } else {
            "exiftool"@
        }),
{
    if is_windows {
        "exiftool.exe"
    } else {
        "exiftool"
    }
}

/// The directory name of an operating system among the bundled tools:
/// `win32`, `darwin`, `linux`, or the system's own name.
pub open spec fn platform_dir_spec(os: Seq<char>) -> Seq<char> {
    if os == "windows"@ {
        "win32"@
    } else if os == "macos"@ {
        "darwin"@
    } else if os == "linux"@ {
        "linux"@
    } else {
        os
    }
}

/// The directory name of an operating system (see `platform_dir_spec`).
pub fn platform_dir(os: &str) -> (r: String)
    ensures
        r@ == platform_dir_spec(os@),
{
    let o = chars_of(os);
    if chars_eq(&o, &chars_of("windows")) {
        "win32".to_owned()
    } else if chars_eq(&o, &chars_of("macos")) {
        "darwin".to_owned()
    } else if chars_eq(&o, &chars_of("linux")) {
        "linux".to_owned()
    } else {
        os.to_owned()
    }
}

/// The pieces of `s` between separators `sep` (`str::split`): one more
/// piece than separators, empty pieces kept.
pub open spec fn split_on(s: Seq<char>, sep: char) -> Seq<Seq<char>>
    decreases s.len(),
{
    if s.len() == 0 {
        seq![Seq::<char>::empty()]
    } else {
        let r = split_on(s.drop_last(), sep);
        if s.last() == sep {
            r.push(Seq::empty())
        } else {
            r.update(r.len() - 1, r.last().push(s.last()))
        }
    }
}

proof fn lemma_split_nonempty(s: Seq<char>, sep: char)
    ensures
        split_on(s, sep).len() >= 1,
    decreases s.len(),
{
    if s.len() > 0 {
        lemma_split_nonempty(s.drop_last(), sep);
    }
}

/// The directories of a `PATH` value: separated by `;` on Windows and `:`
/// elsewhere.
pub fn path_entries(path_env: &str, is_windows: bool) -> (r: Vec<String>)
    ensures
        r.deep_view() == split_on(path_env@, if is_windows { ';' } else { ':' }),
{
    let sep = if is_windows {
        ';'
    } else {
        ':'
    };
    let v = chars_of(path_env);
    let mut done: Vec<String> = Vec::new();
    let mut cur: Vec<char> = Vec::new();
    let mut i: usize = 0;
    while i < v.len()
        invariant
            v@ == path_env@,
            i <= v@.len(),
            done.deep_view().push(cur@) == split_on(v@.take(i as int), sep),
        decreases v.len() - i,
    {
        proof {
            assert(v@.take(i + 1).drop_last() =~= v@.take(i as int));
            assert(v@.take(i + 1).last() == v@[i as int]);
            lemma_split_nonempty(v@.take(i as int), sep);
        }
        let ghost before = done.deep_view();
        let ghost old_cur = cur@;
        if v[i] == sep {
            done.push(string_of(&cur));
            cur = Vec::new();
            assert(done.deep_view().push(cur@) =~= split_on(v@.take(i as int), sep).push(
                Seq::empty(),
            ));
        } else {
            cur.push(v[i]);
            let ghost r = before.push(old_cur);
            assert(done.deep_view().push(cur@) =~= r.update(r.len() - 1, r.last().push(v@[i as int])));
        }
        i = i + 1;
    }
    assert(v@.take(v@.len() as int) =~= v@);
    done.push(string_of(&cur));
    done
}

/// The names tried in each `PATH` directory: the executable's name, and on
/// Windows also the name without `.exe`.
pub fn path_dir_names(is_windows: bool) -> (r: Vec<String>)
    ensures
        r.deep_view() == (if is_windows {
            seq!["exiftool.exe"@, "exiftool"@]
        } else {
            seq!["exiftool"@]
        }),
{
    let mut v: Vec<String> = Vec::new();
    v.push(exiftool_exe_name(is_windows).to_owned());
    if is_windows {
        v.push("exiftool".to_owned());
    }
    proof {
        if is_windows {
            assert(v.deep_view() =~= seq!["exiftool.exe"@, "exiftool"@]);
        } else {
            assert(v.deep_view() =~= seq!["exiftool"@]);
        }
    }
    v
}

/// `prefix` then the executable.
pub open spec fn at(prefix: Seq<char>, e: Seq<char>) -> Seq<char> {
    prefix + e
}

/// `prefix`, the platform directory, then the executable.
pub open spec fn at_platform(prefix: Seq<char>, p: Seq<char>, e: Seq<char>) -> Seq<char> {
    prefix + p + "/"@ + e
}

fn at_exec(prefix: &str, e: &str) -> (r: String)
    ensures
        r@ == at(prefix@, e@),
{
    let mut c = chars_of(prefix);
    extend_str(&mut c, e);
    string_of(&c)
}

fn at_platform_exec(prefix: &str, p: &str, e: &str) -> (r: String)
    ensures
        r@ == at_platform(prefix@, p@, e@),
{
    let mut c = chars_of(prefix);
    extend_str(&mut c, p);
    extend_str(&mut c, "/");
    extend_str(&mut c, e);
    string_of(&c)
}

/// The places under the user's application-data folder (`in_home` false)
/// or home folder (`in_home` true): the platform directory first.
pub open spec fn user_dir_candidates_spec(in_home: bool, p: Seq<char>, e: Seq<char>) -> Seq<Seq<char>> {
    let pre = if in_home {
        ".config/firefly-ai-folder/bin/"@
    } else {
        "firefly-ai-folder/bin/"@
    };
    seq![at_platform(pre, p, e), at(pre, e)]
}

/// The places under the user's folders (see `user_dir_candidates_spec`).
pub fn user_dir_candidates(in_home: bool, platform: &str, exe: &str) -> (r: Vec<String>)
    ensures
        r.deep_view() == user_dir_candidates_spec(in_home, platform@, exe@),
{
    let pre = if in_home {
        ".config/firefly-ai-folder/bin/"
    } else {
        "firefly-ai-folder/bin/"
    };
    let mut v: Vec<String> = Vec::new();
    v.push(at_platform_exec(pre, platform, exe));
    v.push(at_exec(pre, exe));
    assert(v.deep_view() =~= user_dir_candidates_spec(in_home, platform@, exe@));
    v
}

/// The bundled places shared by the program's folders and the working
/// folders.
pub open spec fn bundled_candidates(p: Seq<char>, e: Seq<char>) -> Seq<Seq<char>> {
    seq![
        at("build/extraResources/bin/exiftool/"@, e),
        at_platform("build/extraResources/bin/exiftool/"@, p, e),
        at("apps/omni/build/extraResources/bin/exiftool/"@, e),
        at_platform("apps/omni/build/extraResources/bin/exiftool/"@, p, e),
        at("extraResources/bin/exiftool/"@, e),
        at_platform("extraResources/bin/exiftool/"@, p, e),
        at("apps/omni/extraResources/bin/exiftool/"@, e),
        at_platform("apps/omni/extraResources/bin/exiftool/"@, p, e),
        at_platform("resources/bin/"@, p, e),
        at("resources/bin/"@, e),
        at_platform("apps/omni/resources/bin/"@, p, e),
        at("apps/omni/resources/bin/"@, e),
    ]
}

/// The places tried in the program's folder and each folder above it:
/// the bundled places, then the executable itself.
pub open spec fn program_dir_candidates_spec(p: Seq<char>, e: Seq<char>) -> Seq<Seq<char>> {
    bundled_candidates(p, e).push(e)
}

/// The places tried in the working folder and each folder above it: the
/// bundled places, the extraction crate's and the plain `bin` folders, and
/// the Node package of the tool.
pub open spec fn working_dir_candidates_spec(p: Seq<char>, e: Seq<char>) -> Seq<Seq<char>> {
    bundled_candidates(p, e) + seq![
        at_platform("crates/omni-extract/bin/"@, p, e),
        at("crates/omni-extract/bin/"@, e),
        at("bin/"@, e),
        "apps/desktop/node_modules/exiftool-vendored.exe/bin/exiftool.exe"@,
        "node_modules/exiftool-vendored.exe/bin/exiftool.exe"@,
    ]
}

fn bundled_exec(p: &str, e: &str) -> (r: Vec<String>)
    ensures
        r.deep_view() == bundled_candidates(p@, e@),
{
    let mut v: Vec<String> = Vec::new();
    v.push(at_exec("build/extraResources/bin/exiftool/", e));
    v.push(at_platform_exec("build/extraResources/bin/exiftool/", p, e));
    v.push(at_exec("apps/omni/build/extraResources/bin/exiftool/", e));
    v.push(at_platform_exec("apps/omni/build/extraResources/bin/exiftool/", p, e));
    v.push(at_exec("extraResources/bin/exiftool/", e));
    v.push(at_platform_exec("extraResources/bin/exiftool/", p, e));
    v.push(at_exec("apps/omni/extraResources/bin/exiftool/", e));
    v.push(at_platform_exec("apps/omni/extraResources/bin/exiftool/", p, e));
    v.push(at_platform_exec("resources/bin/", p, e));
    v.push(at_exec("resources/bin/", e));
    v.push(at_platform_exec("apps/omni/resources/bin/", p, e));
    v.push(at_exec("apps/omni/resources/bin/", e));
    assert(v.deep_view() =~= bundled_candidates(p@, e@));
    v
}

/// The places tried in a program folder (see
/// `program_dir_candidates_spec`).
pub fn program_dir_candidates(platform: &str, exe: &str) -> (r: Vec<String>)
    ensures
        r.deep_view() == program_dir_candidates_spec(platform@, exe@),
{
    let mut v = bundled_exec(platform, exe);
    let ghost before = v.deep_view();
    v.push(exe.to_owned());
    assert(v.deep_view() =~= before.push(exe@));
    v
}

/// The places tried in a working folder (see
/// `working_dir_candidates_spec`).
pub fn working_dir_candidates(platform: &str, exe: &str) -> (r: Vec<String>)
    ensures
        r.deep_view() == working_dir_candidates_spec(platform@, exe@),
{
    let mut v = bundled_exec(platform, exe);
    let ghost before = v.deep_view();
    v.push(at_platform_exec("crates/omni-extract/bin/", platform, exe));
    v.push(at_exec("crates/omni-extract/bin/", exe));
    v.push(at_exec("bin/", exe));
    v.push("apps/desktop/node_modules/exiftool-vendored.exe/bin/exiftool.exe".to_owned());
    v.push("node_modules/exiftool-vendored.exe/bin/exiftool.exe".to_owned());
    assert(v.deep_view() =~= working_dir_candidates_spec(platform@, exe@));
    v
}

/// The command that asks the resident tool process for the JSON metadata
/// of one file, one argument per line, ended by `-execute`.
pub open spec fn query_command_spec(abs_path: Seq<char>) -> Seq<char> {
    "-json\n-fast2\n-charset\nfilename=utf8\n"@ + abs_path + "\n-execute\n"@
}

/// The command for one file (see `query_command_spec`).
pub fn exiftool_query_command(abs_path: &str) -> (r: String)
    ensures
        r@ == query_command_spec(abs_path@),
{
    let mut c = chars_of("-json\n-fast2\n-charset\nfilename=utf8\n");
    extend_str(&mut c, abs_path);
    extend_str(&mut c, "\n-execute\n");
    string_of(&c)
}

/// Whether an output line of the resident process ends an answer.
pub fn is_ready_line(line: &str) -> (r: bool)
    ensures
        r == (crate::text::trim(line@) == "{ready}"@),
{
    let t = crate::text::trim_str(line);
    chars_eq(&chars_of(t.as_str()), &chars_of("{ready}"))
}

/// The shape of a metadata value, as far as the field filter reads it.
#[derive(Clone, Copy, PartialEq, Eq, Debug, Structural)]
pub enum ToolValue {
    Null,
    /// Text of the given UTF-8 byte length.
    Text(usize),
    /// A list of the given length.
    List(usize),
    Other,
}

/// The fields never kept: file-system bookkeeping, embedded images and
/// maker notes.
pub open spec fn skipped_tool_keys() -> Seq<Seq<char>> {
    seq![
        "SourceFile"@, "ExifToolVersion"@, "Directory"@, "FilePermissions"@, "ThumbnailImage"@,
        "PreviewImage"@, "JpgFromRaw"@, "OtherImage"@, "MakerNotes"@, "MakerNoteSony"@,
        "MakerNoteCanon"@, "MakerNoteNikon"@, "SonyDateTime2"@, "SonyToneCurve"@, "UserComment"@,
        "PrintIM"@,
    ]
}

/// Whether a metadata field is kept: not a skipped key, not null, no text
/// over 2 KiB and no list over 200 items.
pub open spec fn keep_tool_field_spec(key: Seq<char>, value: ToolValue) -> bool {
    &&& !skipped_tool_keys().contains(key)
    &&& value != ToolValue::Null
    &&& !(value matches ToolValue::Text(n) && n > 2048)
    &&& !(value matches ToolValue::List(n) && n > 200)
}

/// Whether a metadata field is kept (see `keep_tool_field_spec`).
pub fn keep_tool_field(key: &str, value: ToolValue) -> (r: bool)
    ensures
        r == keep_tool_field_spec(key@, value),
{
    let names: [&str; 16] = [
        "SourceFile", "ExifToolVersion", "Directory", "FilePermissions", "ThumbnailImage",
        "PreviewImage", "JpgFromRaw", "OtherImage", "MakerNotes", "MakerNoteSony", "MakerNoteCanon",
        "MakerNoteNikon", "SonyDateTime2", "SonyToneCurve", "UserComment", "PrintIM",
    ];
    assert(crate::extract_plan::views_of(names@) =~= skipped_tool_keys());
    if crate::extract_plan::in_names(&chars_of(key), &names) {
        return false;
    }
    match value {
        ToolValue::Null => false,
        ToolValue::Text(n) => n <= 2048,
        ToolValue::List(n) => n <= 200,
        ToolValue::Other => true,
    }
}

} // verus!
