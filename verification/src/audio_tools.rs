//! The audio side tools: where the converter, its probe, the speech
//! recognizer and its model are looked for, how found tool folders join
//! the search path, the cache key of a converted clip, the command lines of
//! both tools, and what counts as a transcript. The tools run outside this
//! library.
use vstd::prelude::*;
use vstd::utf8::{encode_utf8, decode_utf8, is_char_boundary};
use vstd::string::StringSliceAdditionalSpecFns;
use crate::text::{chars_of, extend_str, string_of, trim, trim_str, decimal, decimal_chars};
use crate::hashing::{fnv1a, md5_hex};

verus! {

/// How many folders up from the working and program folders the tools
/// are looked for.
pub const ANCESTOR_LEVELS: usize = 8;

/// The places of the audio converter under a folder.
pub open spec fn ffmpeg_candidates_spec(exe: Seq<char>) -> Seq<Seq<char>> {
    seq![
        "apps/desktop/build/extraResources/bin/ffmpeg/"@ + exe,
        "resources/bin/ffmpeg/"@ + exe,
        "resources/bin/"@ + exe,
        "Contents/Resources/bin/ffmpeg/"@ + exe,
    ]
}

fn cat(prefix: &str, name: &str) -> (r: String)
    ensures
        r@ == prefix@ + name@,
{
    let mut c = chars_of(prefix);
    extend_str(&mut c, name);
    string_of(&c)
}

/// The places of the audio converter under a folder (see
/// `ffmpeg_candidates_spec`).
pub fn ffmpeg_candidates(exe: &str) -> (r: Vec<String>)
    ensures
        r.deep_view() == ffmpeg_candidates_spec(exe@),
{
    let mut v: Vec<String> = Vec::new();
    v.push(cat("apps/desktop/build/extraResources/bin/ffmpeg/", exe));
    v.push(cat("resources/bin/ffmpeg/", exe));
    v.push(cat("resources/bin/", exe));
    v.push(cat("Contents/Resources/bin/ffmpeg/", exe));
    assert(v.deep_view() =~= ffmpeg_candidates_spec(exe@));
    v
}

/// The places of the speech recognizer under a folder.
pub open spec fn asr_exe_candidates_spec(exe: Seq<char>) -> Seq<Seq<char>> {
    seq![
        "apps/desktop/build/extraResources/bin/audio-cpp/"@ + exe,
        "resources/bin/audio-cpp/"@ + exe,
        "resources/bin/"@ + exe,
    ]
}

/// The places of the speech recognizer under a folder (see
/// `asr_exe_candidates_spec`).
pub fn asr_exe_candidates(exe: &str) -> (r: Vec<String>)
    ensures
        r.deep_view() == asr_exe_candidates_spec(exe@),
{
    let mut v: Vec<String> = Vec::new();
    v.push(cat("apps/desktop/build/extraResources/bin/audio-cpp/", exe));
    v.push(cat("resources/bin/audio-cpp/", exe));
    v.push(cat("resources/bin/", exe));
    assert(v.deep_view() =~= asr_exe_candidates_spec(exe@));
    v
}

/// The places of the recognizer's model under a folder.
pub open spec fn asr_model_candidates_spec() -> Seq<Seq<char>> {
    seq![
        "apps/desktop/build/extraResources/models/sensevoice/sensevoice-small-q4_k.gguf"@,
        "resources/models/sensevoice/sensevoice-small-q4_k.gguf"@,
        "resources/sensevoice/sensevoice-small-q4_k.gguf"@,
    ]
}

/// The places of the recognizer's model under a folder (see
/// `asr_model_candidates_spec`).
pub fn asr_model_candidates() -> (r: Vec<String>)
    ensures
        r.deep_view() == asr_model_candidates_spec(),
{
    let mut v: Vec<String> = Vec::new();
    v.push("apps/desktop/build/extraResources/models/sensevoice/sensevoice-small-q4_k.gguf".to_owned());
    v.push("resources/models/sensevoice/sensevoice-small-q4_k.gguf".to_owned());
    v.push("resources/sensevoice/sensevoice-small-q4_k.gguf".to_owned());
    assert(v.deep_view() =~= asr_model_candidates_spec());
    v
}

/// The text a converted clip is cached under: the source path, a colon and
/// the clip length in seconds.
pub open spec fn cache_source_spec(file_path: Seq<char>, duration_seconds: nat) -> Seq<char> {
    file_path + ":"@ + decimal(duration_seconds)
}

/// The cache key of a converted clip: the 64-bit FNV-1a digest of the
/// UTF-8 bytes of its cache source, as 16 hex digits.
pub fn audio_cache_key(file_path: &str, duration_seconds: u32) -> (r: String)
    ensures
        r@ == crate::text::hex_of_u64(
            fnv1a(encode_utf8(cache_source_spec(file_path@, duration_seconds as nat))),
            16,
        ),
{
    let mut c = chars_of(file_path);
    extend_str(&mut c, ":");
    let d = decimal_chars(duration_seconds as u64);
    crate::text::extend_chars(&mut c, &d);
    let s = string_of(&c);
    md5_hex(s.as_str().as_bytes())
}

/// The converter's arguments: overwrite, read the source, keep the first
/// seconds, filter the noise, resample to 16 kHz mono 16-bit PCM.
pub open spec fn ffmpeg_args_spec(input: Seq<char>, duration_seconds: nat, output: Seq<char>) -> Seq<
    Seq<char>,
> {
    seq![
        "-y"@, "-i"@, input, "-t"@, decimal(duration_seconds), "-af"@,
        "highpass=f=80,lowpass=f=7800,afftdn=nf=-25dB"@, "-ar"@, "16000"@, "-ac"@, "1"@, "-c:a"@,
        "pcm_s16le"@, output,
    ]
}

/// The converter's arguments (see `ffmpeg_args_spec`).
pub fn ffmpeg_args(input: &str, duration_seconds: u32, output: &str) -> (r: Vec<String>)
    ensures
        r.deep_view() == ffmpeg_args_spec(input@, duration_seconds as nat, output@),
{
    let mut v: Vec<String> = Vec::new();
    v.push("-y".to_owned());
    v.push("-i".to_owned());
    v.push(input.to_owned());
    v.push("-t".to_owned());
    v.push(string_of(&decimal_chars(duration_seconds as u64)));
    v.push("-af".to_owned());
    v.push("highpass=f=80,lowpass=f=7800,afftdn=nf=-25dB".to_owned());
    v.push("-ar".to_owned());
    v.push("16000".to_owned());
    v.push("-ac".to_owned());
    v.push("1".to_owned());
    v.push("-c:a".to_owned());
    v.push("pcm_s16le".to_owned());
    v.push(output.to_owned());
    assert(v.deep_view() =~= ffmpeg_args_spec(input@, duration_seconds as nat, output@));
    v
}

/// The language code passed to the recognizer: the first two UTF-8 bytes
/// of the requested language (all of it when shorter).
pub open spec fn language_code_spec(lang: Seq<char>) -> Seq<char> {
    let b = encode_utf8(lang);
    decode_utf8(b.subrange(0, if b.len() < 2 { b.len() as int } else { 2 }))
}

/// Whether the language code can be cut from a language: its first two
/// bytes (or fewer) must end on a character boundary.
pub open spec fn language_code_cuttable(lang: Seq<char>) -> bool {
    let b = encode_utf8(lang);
    is_char_boundary(b, if b.len() < 2 { b.len() as int } else { 2 })
}

/// The recognizer's arguments: the speech task with its model and audio,
/// and the language code when a language is asked for.
pub open spec fn asr_args_spec(model: Seq<char>, audio: Seq<char>, language: Option<Seq<char>>) -> Seq<
    Seq<char>,
> {
    let base = seq![
        "--task"@, "asr"@, "--family"@, "sense_asr"@, "--model"@, model, "--audio"@, audio,
    ];
    match language {
        Some(l) => base + seq!["--language"@, language_code_spec(l)],
        None => base,
    }
}

/// The recognizer's arguments (see `asr_args_spec`).
pub fn asr_args(model: &str, audio: &str, language: Option<&str>) -> (r: Vec<String>)
    requires
        language matches Some(l) ==> language_code_cuttable(l@),
    ensures
        r.deep_view() == asr_args_spec(
            model@,
            audio@,
            match language {
                Some(l) => Some(l@),
                None => None,
            },
        ),
{
    let mut v: Vec<String> = Vec::new();
    v.push("--task".to_owned());
    v.push("asr".to_owned());
    v.push("--family".to_owned());
    v.push("sense_asr".to_owned());
    v.push("--model".to_owned());
    v.push(model.to_owned());
    v.push("--audio".to_owned());
    v.push(audio.to_owned());
    let ghost base = v.deep_view();
    assert(base =~= seq![
        "--task"@, "asr"@, "--family"@, "sense_asr"@, "--model"@, model@, "--audio"@, audio@,
    ]);
    match language {
        Some(l) => {
            let n = l.as_bytes().len();
            let cut: usize = if n < 2 {
                n
            } else {
                2
            };
            proof {
                vstd::utf8::encode_utf8_valid_utf8(l@);
            }
            let (head, _rest) = l.split_at(cut);
            proof {
                assert(head.spec_bytes() =~= encode_utf8(l@).subrange(0, cut as int));
                vstd::utf8::encode_utf8_decode_utf8(head@);
            }
            v.push("--language".to_owned());
            v.push(head.to_owned());
            assert(v.deep_view() =~= base + seq!["--language"@, language_code_spec(l@)]);
        },
        None => {},
    }
    v
}

/// The transcript of the recognizer's output: the trimmed output, none
/// when blank.
pub fn transcript_of(stdout: &str) -> (r: Option<String>)
    ensures
        trim(stdout@).len() == 0 ==> r is None,
        trim(stdout@).len() > 0 ==> (r matches Some(t) && t@ == trim(stdout@)),
{
    let t = trim_str(stdout);
    if t.as_str().unicode_len() == 0 {
        None
    } else {
        Some(t)
    }
}

/// The parts joined end to end.
pub open spec fn concat_all(parts: Seq<Seq<char>>) -> Seq<char>
    decreases parts.len(),
{
    if parts.len() == 0 {
        Seq::empty()
    } else {
        concat_all(parts.drop_last()) + parts.last()
    }
}

fn concat_exec(parts: &[&str]) -> (r: String)
    ensures
        r@ == concat_all(crate::extract_plan::views_of(parts@)),
{
    let ghost pv = crate::extract_plan::views_of(parts@);
    let mut c: Vec<char> = Vec::new();
    let mut i: usize = 0;
    while i < parts.len()
        invariant
            pv == crate::extract_plan::views_of(parts@),
            i <= parts.len(),
            c@ == concat_all(pv.take(i as int)),
        decreases parts.len() - i,
    {
        proof {
            assert(pv.take(i + 1).drop_last() =~= pv.take(i as int));
            assert(pv.take(i + 1).last() == parts@[i as int]@);
        }
        extend_str(&mut c, parts[i]);
        i = i + 1;
    }
    assert(pv.take(parts.len() as int) =~= pv);
    string_of(&c)
}

/// The places of a media tool (`ffmpeg` or `ffprobe`) under a folder: the
/// bundled folders, the platform folder, and the Node installer packages
/// (the package manager's store names the installer's version).
pub open spec fn media_tool_candidates_spec(
    tool: Seq<char>,
    version: Seq<char>,
    platform: Seq<char>,
    exe: Seq<char>,
) -> Seq<Seq<char>> {
    seq![
        "apps/omni/build/extraResources/bin/"@ + tool + "/"@ + exe,
        "build/extraResources/bin/"@ + tool + "/"@ + exe,
        "apps/omni/extraResources/bin/"@ + tool + "/"@ + exe,
        "extraResources/bin/"@ + tool + "/"@ + exe,
        "resources/bin/"@ + platform + "/"@ + exe,
        "resources/bin/"@ + exe,
        "node_modules/@"@ + tool + "-installer/win32-x64/"@ + exe,
        "node_modules\\.pnpm\\@"@ + tool + "-installer+win32-x64@"@ + version + "\\node_modules\\@"@
            + tool + "-installer\\win32-x64\\"@ + exe,
    ]
}

/// The places of a media tool under a folder (see
/// `media_tool_candidates_spec`).
pub fn media_tool_candidates(tool: &str, version: &str, platform: &str, exe: &str) -> (r: Vec<String>)
    ensures
        r.deep_view() == media_tool_candidates_spec(tool@, version@, platform@, exe@),
{
    reveal_with_fuel(concat_all, 12);
    let mut v: Vec<String> = Vec::new();
    let a = ["apps/omni/build/extraResources/bin/", tool, "/", exe];
    assert(concat_all(crate::extract_plan::views_of(a@)) == "apps/omni/build/extraResources/bin/"@ + tool@ + "/"@ + exe@) by {
        assert(crate::extract_plan::views_of(a@) =~= seq!["apps/omni/build/extraResources/bin/"@, tool@, "/"@, exe@]);
    }
    v.push(concat_exec(&a));
    let b = ["build/extraResources/bin/", tool, "/", exe];
    assert(crate::extract_plan::views_of(b@) =~= seq!["build/extraResources/bin/"@, tool@, "/"@, exe@]);
    v.push(concat_exec(&b));
    let c = ["apps/omni/extraResources/bin/", tool, "/", exe];
    assert(crate::extract_plan::views_of(c@) =~= seq!["apps/omni/extraResources/bin/"@, tool@, "/"@, exe@]);
    v.push(concat_exec(&c));
    let d = ["extraResources/bin/", tool, "/", exe];
    assert(crate::extract_plan::views_of(d@) =~= seq!["extraResources/bin/"@, tool@, "/"@, exe@]);
    v.push(concat_exec(&d));
    let e = ["resources/bin/", platform, "/", exe];
    assert(crate::extract_plan::views_of(e@) =~= seq!["resources/bin/"@, platform@, "/"@, exe@]);
    v.push(concat_exec(&e));
    v.push(cat("resources/bin/", exe));
    let f = ["node_modules/@", tool, "-installer/win32-x64/", exe];
    assert(crate::extract_plan::views_of(f@) =~= seq!["node_modules/@"@, tool@, "-installer/win32-x64/"@, exe@]);
    v.push(concat_exec(&f));
    let g = [
        "node_modules\\.pnpm\\@", tool, "-installer+win32-x64@", version, "\\node_modules\\@", tool,
        "-installer\\win32-x64\\", exe,
    ];
    assert(crate::extract_plan::views_of(g@) =~= seq![
        "node_modules\\.pnpm\\@"@, tool@, "-installer+win32-x64@"@, version@, "\\node_modules\\@"@,
        tool@, "-installer\\win32-x64\\"@, exe@,
    ]);
    v.push(concat_exec(&g));
    assert(v.deep_view() =~= media_tool_candidates_spec(tool@, version@, platform@, exe@));
    v
}

/// The search path with the found tool folders first: the folders joined
/// by `;`, then `;` and the old value.
pub open spec fn prepended_path_spec(added: Seq<Seq<char>>, current: Seq<char>) -> Seq<char> {
    crate::doc_plan::join_sep(added, ";"@) + ";"@ + current
}

/// The search path with the found tool folders first (see
/// `prepended_path_spec`).
pub fn prepended_path(added: &Vec<String>, current: &str) -> (r: String)
    ensures
        r@ == prepended_path_spec(added.deep_view(), current@),
{
    let ghost av = added.deep_view();
    let mut c: Vec<char> = Vec::new();
    let mut i: usize = 0;
    while i < added.len()
        invariant
            av == added.deep_view(),
            i <= added.len(),
            c@ == crate::doc_plan::join_sep(av.take(i as int), ";"@),
        decreases added.len() - i,
    {
        proof {
            assert(av.take(i + 1).drop_last() =~= av.take(i as int));
            assert(av.take(i + 1).last() == added@[i as int]@);
        }
        if i > 0 {
            extend_str(&mut c, ";");
        }
        extend_str(&mut c, added[i].as_str());
        i = i + 1;
    }
    assert(av.take(added.len() as int) =~= av);
    extend_str(&mut c, ";");
    extend_str(&mut c, current);
    string_of(&c)
}

} // verus!
