//! The decisions of a file extraction, apart from its I/O: what kind of
//! file an extension and a MIME type describe, whether its content is read,
//! which metadata fields are taken from which tool keys, text statistics,
//! and the timing record.
use vstd::prelude::*;
use crate::text::{chars_of, chars_eq, starts_with_str, contains_chars, contains_seq};
use crate::extract_text::plain_text_ext_spec;

verus! {

/// The views of a list of names.
pub open spec fn views_of(names: Seq<&str>) -> Seq<Seq<char>> {
    names.map_values(|n: &str| n@)
}

/// Whether `e` is one of `names`.
pub fn in_names(e: &[char], names: &[&str]) -> (r: bool)
    ensures
        r == views_of(names@).contains(e@),
{
    let mut i: usize = 0;
    while i < names.len()
        invariant
            i <= names@.len(),
            forall|k: int| 0 <= k < i ==> names@[k]@ != e@,
        decreases names.len() - i,
    {
        if chars_eq(e, &chars_of(names[i])) {
            assert(views_of(names@)[i as int] == e@);
            return true;
        }
        i = i + 1;
    }
    assert forall|x: Seq<char>| views_of(names@).contains(x) implies x != e@ by {
        let k = choose|k: int| 0 <= k < views_of(names@).len() && views_of(names@)[k] == x;
        assert(names@[k]@ == x);
    }
    false
}

/// Image extensions.
pub open spec fn image_exts() -> Seq<Seq<char>> {
    seq!["png"@, "jpg"@, "jpeg"@, "webp"@, "gif"@, "bmp"@, "tiff"@]
}

/// Audio extensions.
pub open spec fn audio_exts() -> Seq<Seq<char>> {
    seq!["mp3"@, "flac"@, "wav"@, "aac"@, "ogg"@, "m4a"@]
}

/// Video extensions.
pub open spec fn video_exts() -> Seq<Seq<char>> {
    seq!["mp4"@, "mkv"@, "mov"@, "avi"@]
}

/// Office and e-book extensions.
pub open spec fn office_exts() -> Seq<Seq<char>> {
    seq![
        "doc"@, "docx"@, "xls"@, "xlsx"@, "ppt"@, "pptx"@, "odt"@, "ods"@, "odp"@, "numbers"@,
        "rtf"@, "epub"@, "fb2"@, "mobi"@,
    ]
}

/// Executable and library extensions.
pub open spec fn exe_exts() -> Seq<Seq<char>> {
    seq!["exe"@, "dll"@, "sys"@, "so"@, "dylib"@]
}

/// Windows program extensions.
pub open spec fn windows_program_exts() -> Seq<Seq<char>> {
    seq!["exe"@, "dll"@, "sys"@]
}

/// Archive and disk-image extensions.
pub open spec fn archive_exts() -> Seq<Seq<char>> {
    seq![
        "7z"@, "7zip"@, "zip"@, "rar"@, "tar"@, "gz"@, "gzip"@, "bz2"@, "xz"@, "tgz"@, "tbz2"@,
        "iso"@, "dmg"@, "deb"@, "rpm"@, "jar"@, "war"@, "ear"@, "pkg"@, "xar"@, "cbr"@, "cbz"@,
        "vhd"@, "vhdx"@, "vmdk"@, "img"@, "qcow2"@, "vdi"@, "ova"@,
    ]
}

/// Database file extensions.
pub open spec fn database_exts() -> Seq<Seq<char>> {
    seq!["db"@, "db3"@, "sqlite"@, "sqlite3"@, "sqlitedb"@, "mdb"@, "accdb"@, "fdb"@, "dbf"@]
}

/// Machine-learning model extensions.
pub open spec fn model_exts() -> Seq<Seq<char>> {
    seq!["onnx"@, "gguf"@, "safetensors"@, "pt"@, "pth"@, "tflite"@, "h5"@]
}

/// Font extensions.
pub open spec fn font_exts() -> Seq<Seq<char>> {
    seq!["ttf"@, "otf"@, "woff"@, "woff2"@, "ttc"@, "eot"@]
}

/// What the extension and the detected MIME type say of a file.
pub struct FileTraits {
    pub is_pdf: bool,
    pub is_image: bool,
    pub is_audio: bool,
    pub is_video: bool,
    pub is_office: bool,
    pub is_text_or_code: bool,
    pub is_exe: bool,
    pub is_archive: bool,
    pub is_database: bool,
    pub is_model: bool,
    pub is_font: bool,
}

/// The traits of a file with lower-case extension `ext` and MIME type
/// `mime`; a file of no other kind counts as text.
pub open spec fn file_traits_spec(ext: Seq<char>, mime: Seq<char>) -> FileTraits {
    let is_pdf = ext == "pdf"@ || mime == "application/pdf"@;
    let is_image = "image/"@.is_prefix_of(mime) || image_exts().contains(ext);
    let is_audio = "audio/"@.is_prefix_of(mime) || audio_exts().contains(ext);
    let is_video = "video/"@.is_prefix_of(mime) || video_exts().contains(ext);
    let is_office = office_exts().contains(ext);
    let unknown = !is_image && !is_audio && !is_video && !is_pdf && !is_office;
    FileTraits {
        is_pdf,
        is_image,
        is_audio,
        is_video,
        is_office,
        is_text_or_code: plain_text_ext_spec(ext) || "text/"@.is_prefix_of(mime)
            || contains_seq(mime, "json"@) || contains_seq(mime, "xml"@) || unknown,
        is_exe: exe_exts().contains(ext) || contains_seq(mime, "x-msdownload"@)
            || contains_seq(mime, "x-executable"@)
            || contains_seq(mime, "application/vnd.microsoft.portable-executable"@)
            || (contains_seq(mime, "application/octet-stream"@) && windows_program_exts().contains(
            ext,
        )),
        is_archive: archive_exts().contains(ext),
        is_database: database_exts().contains(ext),
        is_model: model_exts().contains(ext),
        is_font: font_exts().contains(ext),
    }
}

fn mime_has(m: &Vec<char>, part: &str) -> (r: bool)
    ensures
        r == contains_seq(m@, part@),
{
    contains_chars(m, &chars_of(part))
}

/// Classifies a file by lower-case extension and MIME type (see
/// `file_traits_spec`).
pub fn file_traits(ext: &str, mime: &str) -> (r: FileTraits)
    ensures
        r == file_traits_spec(ext@, mime@),
{
    let e = chars_of(ext);
    let m = chars_of(mime);
    let is_pdf = chars_eq(&e, &chars_of("pdf")) || chars_eq(&m, &chars_of("application/pdf"));
    let image_names: [&str; 7] = ["png", "jpg", "jpeg", "webp", "gif", "bmp", "tiff"];
    assert(views_of(image_names@) =~= image_exts());
    let is_image = starts_with_str(&m, "image/") || in_names(&e, &image_names);
    let audio_names: [&str; 6] = ["mp3", "flac", "wav", "aac", "ogg", "m4a"];
    assert(views_of(audio_names@) =~= audio_exts());
    let is_audio = starts_with_str(&m, "audio/") || in_names(&e, &audio_names);
    let video_names: [&str; 4] = ["mp4", "mkv", "mov", "avi"];
    assert(views_of(video_names@) =~= video_exts());
    let is_video = starts_with_str(&m, "video/") || in_names(&e, &video_names);
    let office_names: [&str; 14] = [
        "doc", "docx", "xls", "xlsx", "ppt", "pptx", "odt", "ods", "odp", "numbers", "rtf", "epub",
        "fb2", "mobi",
    ];
    assert(views_of(office_names@) =~= office_exts());
    let is_office = in_names(&e, &office_names);
    let unknown = !is_image && !is_audio && !is_video && !is_pdf && !is_office;
    let is_text_or_code = crate::extract_text::is_plain_text_or_code_ext(ext) || starts_with_str(
        &m,
        "text/",
    ) || mime_has(&m, "json") || mime_has(&m, "xml") || unknown;
    let exe_names: [&str; 5] = ["exe", "dll", "sys", "so", "dylib"];
    assert(views_of(exe_names@) =~= exe_exts());
    let win_names: [&str; 3] = ["exe", "dll", "sys"];
    assert(views_of(win_names@) =~= windows_program_exts());
    let is_exe = in_names(&e, &exe_names) || mime_has(&m, "x-msdownload") || mime_has(
        &m,
        "x-executable",
    ) || mime_has(&m, "application/vnd.microsoft.portable-executable") || (mime_has(
        &m,
        "application/octet-stream",
    ) && in_names(&e, &win_names));
    let archive_names: [&str; 29] = [
        "7z", "7zip", "zip", "rar", "tar", "gz", "gzip", "bz2", "xz", "tgz", "tbz2", "iso", "dmg",
        "deb", "rpm", "jar", "war", "ear", "pkg", "xar", "cbr", "cbz", "vhd", "vhdx", "vmdk", "img",
        "qcow2", "vdi", "ova",
    ];
    assert(views_of(archive_names@) =~= archive_exts());
    let database_names: [&str; 9] = [
        "db", "db3", "sqlite", "sqlite3", "sqlitedb", "mdb", "accdb", "fdb", "dbf",
    ];
    assert(views_of(database_names@) =~= database_exts());
    let model_names: [&str; 7] = ["onnx", "gguf", "safetensors", "pt", "pth", "tflite", "h5"];
    assert(views_of(model_names@) =~= model_exts());
    let font_names: [&str; 6] = ["ttf", "otf", "woff", "woff2", "ttc", "eot"];
    assert(views_of(font_names@) =~= font_exts());
    FileTraits {
        is_pdf,
        is_image,
        is_audio,
        is_video,
        is_office,
        is_text_or_code,
        is_exe,
        is_archive: in_names(&e, &archive_names),
        is_database: in_names(&e, &database_names),
        is_model: in_names(&e, &model_names),
        is_font: in_names(&e, &font_names),
    }
}

/// The format label of a file: its extension, or `bin` without one.
pub open spec fn magika_label_spec(ext: Seq<char>) -> Seq<char> {
    if ext.len() == 0 {
        "bin"@
    } else {
        ext
    }
}

/// The format label of a file (see `magika_label_spec`).
pub fn magika_label(ext: &str) -> (r: String)
    ensures
        r@ == magika_label_spec(ext@),
{
    if ext.unicode_len() == 0 {
        "bin".to_owned()
    } else {
        ext.to_owned()
    }
}

/// The format group of a file: `image`, `document font`, `audio`, `video`
/// or `code/text`.
pub open spec fn magika_group_spec(ext: Seq<char>, mime: Seq<char>) -> Seq<char> {
    if "image/"@.is_prefix_of(mime) {
        "image"@
    } else if "application/pdf"@.is_prefix_of(mime) || ext == "docx"@ || ext == "xlsx"@ || ext
        == "pptx"@ {
        "document font"@
    } else if "audio/"@.is_prefix_of(mime) {
        "audio"@
    } else if "video/"@.is_prefix_of(mime) {
        "video"@
    } else {
        "code/text"@
    }
}

/// The format group of a file (see `magika_group_spec`).
pub fn magika_group(ext: &str, mime: &str) -> (r: &'static str)
    ensures
        r@ == magika_group_spec(ext@, mime@),
{
    let e = chars_of(ext);
    let m = chars_of(mime);
    if starts_with_str(&m, "image/") {
        "image"
    } else if starts_with_str(&m, "application/pdf") || chars_eq(&e, &chars_of("docx")) || chars_eq(
        &e,
        &chars_of("xlsx"),
    ) || chars_eq(&e, &chars_of("pptx")) {
        "document font"
    } else if starts_with_str(&m, "audio/") {
        "audio"
    } else if starts_with_str(&m, "video/") {
        "video"
    } else {
        "code/text"
    }
}

/// Whether the content of a file is read under an analysis mode: text and
/// code only in `simple` mode (in any letter case), documents too in any
/// other mode.
pub open spec fn should_extract_spec(mode: Seq<char>, t: FileTraits) -> bool {
    if crate::unicode::unicode_lowercase(mode) == "simple"@ {
        t.is_text_or_code
    } else {
        t.is_text_or_code || t.is_pdf || t.is_office
    }
}

/// Whether the content of a file is read (see `should_extract_spec`).
pub fn should_extract_content(mode: &str, t: &FileTraits) -> (r: bool)
    ensures
        r == should_extract_spec(mode@, *t),
{
    let m = crate::unicode::lowercase_string(mode);
    if chars_eq(&chars_of(m.as_str()), &chars_of("simple")) {
        t.is_text_or_code
    } else {
        t.is_text_or_code || t.is_pdf || t.is_office
    }
}

/// Whether a file is larger than a limit given in mebibytes.
pub fn exceeds_size_limit(file_size: u64, max_file_size_mb: u64) -> (r: bool)
    requires
        max_file_size_mb * 1048576 <= u64::MAX,
    ensures
        r == (file_size > max_file_size_mb * 1048576),
{
    file_size > max_file_size_mb * 1024 * 1024
}

/// Outside `simple` mode every PDF and office document is read, and text
/// and code are read in every mode; a file of none of these kinds is never
/// read. In particular `.docx`, `.xlsx`, `.pptx` and `.pdf` files are read
/// whatever their MIME type.
pub proof fn law_documents_are_read_outside_simple_mode(mode: Seq<char>, t: FileTraits, mime: Seq<char>)
    ensures
        crate::unicode::unicode_lowercase(mode) != "simple"@ ==> (t.is_office ==> should_extract_spec(mode, t)),
        crate::unicode::unicode_lowercase(mode) != "simple"@ ==> (t.is_pdf ==> should_extract_spec(mode, t)),
        t.is_text_or_code ==> should_extract_spec(mode, t),
        should_extract_spec(mode, t) ==> t.is_text_or_code || t.is_pdf || t.is_office,
        crate::unicode::unicode_lowercase(mode) != "simple"@ ==> {
            &&& should_extract_spec(mode, file_traits_spec("docx"@, mime))
            &&& should_extract_spec(mode, file_traits_spec("xlsx"@, mime))
            &&& should_extract_spec(mode, file_traits_spec("pptx"@, mime))
            &&& should_extract_spec(mode, file_traits_spec("pdf"@, mime))
        },
{
    let o = office_exts();
    assert(o[1] == "docx"@);
    assert(o[3] == "xlsx"@);
    assert(o[5] == "pptx"@);
    assert(o.contains("docx"@));
    assert(o.contains("xlsx"@));
    assert(o.contains("pptx"@));
}

/// In `simple` mode (in any letter case) only text and code are read; in
/// `full` mode text, code, PDFs and office documents are.
pub proof fn law_simple_mode_reads_only_text(mode: Seq<char>, t: FileTraits)
    ensures
        crate::unicode::unicode_lowercase(mode) == "simple"@ ==> should_extract_spec(mode, t) == t.is_text_or_code,
        should_extract_spec("simple"@, t) == t.is_text_or_code,
        should_extract_spec("SIMPLE"@, t) == t.is_text_or_code,
        should_extract_spec("full"@, t) == (t.is_text_or_code || t.is_pdf || t.is_office),
{
    reveal(crate::unicode::unicode_lowercase);
    reveal_strlit("simple");
    reveal_strlit("SIMPLE");
    reveal_strlit("full");
    assert(crate::unicode::all_ascii("simple"@));
    assert(crate::unicode::ascii_lowercase("simple"@) =~= "simple"@);
    assert(crate::unicode::all_ascii("SIMPLE"@));
    assert(crate::unicode::ascii_lower_char('S') == 's');
    assert(crate::unicode::ascii_lower_char('I') == 'i');
    assert(crate::unicode::ascii_lower_char('M') == 'm');
    assert(crate::unicode::ascii_lower_char('P') == 'p');
    assert(crate::unicode::ascii_lower_char('L') == 'l');
    assert(crate::unicode::ascii_lower_char('E') == 'e');
    assert(crate::unicode::ascii_lowercase("SIMPLE"@) =~= "simple"@);
    assert(crate::unicode::all_ascii("full"@));
    assert(crate::unicode::ascii_lowercase("full"@) =~= "full"@);
    assert(crate::unicode::unicode_lowercase("full"@) != "simple"@);
}

/// The byte budget of extracted content, given in kibibytes.
pub fn content_budget(max_content_size_kb: usize) -> (r: usize)
    requires
        max_content_size_kb * 1024 <= usize::MAX,
    ensures
        r == max_content_size_kb * 1024,
{
    max_content_size_kb * 1024
}

/// The first of `cands` that is among `keys`.
pub open spec fn first_present(keys: Seq<Seq<char>>, cands: Seq<Seq<char>>) -> Option<Seq<char>>
    decreases cands.len(),
{
    if cands.len() == 0 {
        None
    } else if keys.contains(cands[0]) {
        Some(cands[0])
    } else {
        first_present(keys, cands.drop_first())
    }
}

/// The view of an optional string.
pub open spec fn opt_view(o: Option<String>) -> Option<Seq<char>> {
    match o {
        Some(s) => Some(s@),
        None => None,
    }
}

/// Whether `k` is among `keys`.
pub fn has_key(keys: &Vec<String>, k: &str) -> (r: bool)
    ensures
        r == keys.deep_view().contains(k@),
{
    let kc = chars_of(k);
    let mut i: usize = 0;
    while i < keys.len()
        invariant
            kc@ == k@,
            i <= keys@.len(),
            forall|j: int| 0 <= j < i ==> keys@[j]@ != k@,
        decreases keys.len() - i,
    {
        if chars_eq(&chars_of(keys[i].as_str()), &kc) {
            assert(keys.deep_view()[i as int] == k@);
            return true;
        }
        i = i + 1;
    }
    assert forall|x: Seq<char>| keys.deep_view().contains(x) implies x != k@ by {
        let j = choose|j: int| 0 <= j < keys.deep_view().len() && keys.deep_view()[j] == x;
        assert(keys@[j]@ == x);
    }
    false
}

fn pick1(keys: &Vec<String>, a: &str) -> (r: Option<String>)
    ensures
        opt_view(r) == first_present(keys.deep_view(), seq![a@]),
{
    reveal_with_fuel(first_present, 4);
    assert(seq![a@].drop_first() =~= Seq::<Seq<char>>::empty());
    if has_key(keys, a) {
        Some(a.to_owned())
    } else {
        None
    }
}

fn pick2(keys: &Vec<String>, a: &str, b: &str) -> (r: Option<String>)
    ensures
        opt_view(r) == first_present(keys.deep_view(), seq![a@, b@]),
{
    reveal_with_fuel(first_present, 4);
    assert(seq![a@, b@].drop_first() =~= seq![b@]);
    assert(seq![b@].drop_first() =~= Seq::<Seq<char>>::empty());
    if has_key(keys, a) {
        Some(a.to_owned())
    } else if has_key(keys, b) {
        Some(b.to_owned())
    } else {
        None
    }
}

fn pick3(keys: &Vec<String>, a: &str, b: &str, c: &str) -> (r: Option<String>)
    ensures
        opt_view(r) == first_present(keys.deep_view(), seq![a@, b@, c@]),
{
    reveal_with_fuel(first_present, 4);
    assert(seq![a@, b@, c@].drop_first() =~= seq![b@, c@]);
    assert(seq![b@, c@].drop_first() =~= seq![c@]);
    assert(seq![c@].drop_first() =~= Seq::<Seq<char>>::empty());
    if has_key(keys, a) {
        Some(a.to_owned())
    } else if has_key(keys, b) {
        Some(b.to_owned())
    } else if has_key(keys, c) {
        Some(c.to_owned())
    } else {
        None
    }
}

/// For each document field, the metadata-tool key it is taken from.
pub struct DocumentFields {
    pub title: Option<String>,
    pub author: Option<String>,
    pub subject: Option<String>,
    pub keywords: Option<String>,
    pub creator: Option<String>,
    pub producer: Option<String>,
    pub page_count: Option<String>,
    pub word_count: Option<String>,
    pub creation_date: Option<String>,
    pub modify_date: Option<String>,
}

/// The document fields found among the metadata-tool keys: the author
/// falls back to the creator.
pub fn document_fields(keys: &Vec<String>) -> (r: DocumentFields)
    ensures
        opt_view(r.title) == first_present(keys.deep_view(), seq!["Title"@]),
        opt_view(r.author) == first_present(keys.deep_view(), seq!["Author"@, "Creator"@]),
        opt_view(r.subject) == first_present(keys.deep_view(), seq!["Subject"@]),
        opt_view(r.keywords) == first_present(keys.deep_view(), seq!["Keywords"@]),
        opt_view(r.creator) == first_present(keys.deep_view(), seq!["Creator"@]),
        opt_view(r.producer) == first_present(keys.deep_view(), seq!["Producer"@]),
        opt_view(r.page_count) == first_present(keys.deep_view(), seq!["PageCount"@]),
        opt_view(r.word_count) == first_present(keys.deep_view(), seq!["WordCount"@]),
        opt_view(r.creation_date) == first_present(keys.deep_view(), seq!["CreateDate"@]),
        opt_view(r.modify_date) == first_present(keys.deep_view(), seq!["ModifyDate"@]),
{
    DocumentFields {
        title: pick1(keys, "Title"),
        author: pick2(keys, "Author", "Creator"),
        subject: pick1(keys, "Subject"),
        keywords: pick1(keys, "Keywords"),
        creator: pick1(keys, "Creator"),
        producer: pick1(keys, "Producer"),
        page_count: pick1(keys, "PageCount"),
        word_count: pick1(keys, "WordCount"),
        creation_date: pick1(keys, "CreateDate"),
        modify_date: pick1(keys, "ModifyDate"),
    }
}

/// For each executable field, the metadata-tool key it is taken from, and
/// whether the file is described as an executable at all.
pub struct ExecutableFields {
    pub applies: bool,
    pub file_description: Option<String>,
    pub company_name: Option<String>,
    pub product_name: Option<String>,
    pub file_version: Option<String>,
    pub product_version: Option<String>,
    pub legal_copyright: Option<String>,
    pub original_file_name: Option<String>,
    pub internal_name: Option<String>,
    pub pe_type: Option<String>,
    pub subsystem: Option<String>,
}

/// The executable fields: they apply to executables and to any file whose
/// metadata names a company or a file description.
pub fn executable_fields(t: &FileTraits, keys: &Vec<String>) -> (r: ExecutableFields)
    ensures
        r.applies == (t.is_exe || keys.deep_view().contains("CompanyName"@)
            || keys.deep_view().contains("FileDescription"@)),
        opt_view(r.file_description) == first_present(
            keys.deep_view(),
            seq!["FileDescription"@, "Description"@],
        ),
        opt_view(r.company_name) == first_present(keys.deep_view(), seq!["CompanyName"@, "Company"@]),
        opt_view(r.product_name) == first_present(keys.deep_view(), seq!["ProductName"@, "Product"@]),
        opt_view(r.file_version) == first_present(keys.deep_view(), seq!["FileVersion"@]),
        opt_view(r.product_version) == first_present(keys.deep_view(), seq!["ProductVersion"@]),
        opt_view(r.legal_copyright) == first_present(
            keys.deep_view(),
            seq!["LegalCopyright"@, "Copyright"@],
        ),
        opt_view(r.original_file_name) == first_present(keys.deep_view(), seq!["OriginalFileName"@]),
        opt_view(r.internal_name) == first_present(keys.deep_view(), seq!["InternalName"@]),
        opt_view(r.pe_type) == first_present(keys.deep_view(), seq!["PEType"@, "MachineType"@]),
        opt_view(r.subsystem) == first_present(keys.deep_view(), seq!["Subsystem"@]),
{
    ExecutableFields {
        applies: t.is_exe || has_key(keys, "CompanyName") || has_key(keys, "FileDescription"),
        file_description: pick2(keys, "FileDescription", "Description"),
        company_name: pick2(keys, "CompanyName", "Company"),
        product_name: pick2(keys, "ProductName", "Product"),
        file_version: pick1(keys, "FileVersion"),
        product_version: pick1(keys, "ProductVersion"),
        legal_copyright: pick2(keys, "LegalCopyright", "Copyright"),
        original_file_name: pick1(keys, "OriginalFileName"),
        internal_name: pick1(keys, "InternalName"),
        pe_type: pick2(keys, "PEType", "MachineType"),
        subsystem: pick1(keys, "Subsystem"),
    }
}

/// For each archive field, the metadata-tool key it is taken from, and
/// whether the file is described as an archive at all.
pub struct ArchiveFields {
    pub applies: bool,
    pub format: Option<String>,
    pub uncompressed_size: Option<String>,
    pub file_count: Option<String>,
}

/// The archive fields: they apply to archives and to any file whose
/// metadata has a zip file name or size.
pub fn archive_fields(t: &FileTraits, keys: &Vec<String>) -> (r: ArchiveFields)
    ensures
        r.applies == (t.is_archive || keys.deep_view().contains("ZipFileName"@)
            || keys.deep_view().contains("ZipUncompressedSize"@)),
        opt_view(r.format) == first_present(
            keys.deep_view(),
            seq!["ZipFileName"@, "ArchiveFormat"@, "FileType"@],
        ),
        opt_view(r.uncompressed_size) == first_present(
            keys.deep_view(),
            seq!["ZipUncompressedSize"@, "UncompressedSize"@],
        ),
        opt_view(r.file_count) == first_present(keys.deep_view(), seq!["ZipFileCount"@, "FileCount"@]),
{
    ArchiveFields {
        applies: t.is_archive || has_key(keys, "ZipFileName") || has_key(keys, "ZipUncompressedSize"),
        format: pick3(keys, "ZipFileName", "ArchiveFormat", "FileType"),
        uncompressed_size: pick2(keys, "ZipUncompressedSize", "UncompressedSize"),
        file_count: pick2(keys, "ZipFileCount", "FileCount"),
    }
}

/// For each font field, the metadata-tool key it is taken from, and
/// whether the file is described as a font at all.
pub struct FontFields {
    pub applies: bool,
    pub font_name: Option<String>,
    pub subfamily: Option<String>,
    pub version: Option<String>,
}

/// The font fields: they apply to fonts and to any file whose metadata
/// names a font.
pub fn font_fields(t: &FileTraits, keys: &Vec<String>) -> (r: FontFields)
    ensures
        r.applies == (t.is_font || keys.deep_view().contains("FontName"@)),
        opt_view(r.font_name) == first_present(keys.deep_view(), seq!["FontName"@, "FamilyName"@]),
        opt_view(r.subfamily) == first_present(keys.deep_view(), seq!["FontSubfamily"@]),
        opt_view(r.version) == first_present(keys.deep_view(), seq!["FontVersion"@]),
{
    FontFields {
        applies: t.is_font || has_key(keys, "FontName"),
        font_name: pick2(keys, "FontName", "FamilyName"),
        subfamily: pick1(keys, "FontSubfamily"),
        version: pick1(keys, "FontVersion"),
    }
}

/// For each video field, the metadata-tool key it is taken from; the
/// dimensions are taken only when both the width and the height are there.
pub struct VideoFields {
    pub codec: Option<String>,
    pub frame_rate: Option<String>,
    pub has_dimensions: bool,
}

/// The video fields found among the metadata-tool keys.
pub fn video_fields(keys: &Vec<String>) -> (r: VideoFields)
    ensures
        opt_view(r.codec) == first_present(keys.deep_view(), seq!["CompressorName"@, "VideoCodec"@]),
        opt_view(r.frame_rate) == first_present(
            keys.deep_view(),
            seq!["VideoFrameRate"@, "FrameRate"@],
        ),
        r.has_dimensions == (keys.deep_view().contains("ImageWidth"@) && keys.deep_view().contains(
            "ImageHeight"@,
        )),
{
    VideoFields {
        codec: pick2(keys, "CompressorName", "VideoCodec"),
        frame_rate: pick2(keys, "VideoFrameRate", "FrameRate"),
        has_dimensions: has_key(keys, "ImageWidth") && has_key(keys, "ImageHeight"),
    }
}

/// For each audio tag, the metadata-tool key that fills it when the audio
/// file's own tags lack it.
pub struct AudioFields {
    pub title: Option<String>,
    pub artist: Option<String>,
    pub album: Option<String>,
}

/// The audio fallback fields found among the metadata-tool keys.
pub fn audio_fields(keys: &Vec<String>) -> (r: AudioFields)
    ensures
        opt_view(r.title) == first_present(keys.deep_view(), seq!["Title"@]),
        opt_view(r.artist) == first_present(keys.deep_view(), seq!["Artist"@]),
        opt_view(r.album) == first_present(keys.deep_view(), seq!["Album"@]),
{
    AudioFields {
        title: pick1(keys, "Title"),
        artist: pick1(keys, "Artist"),
        album: pick1(keys, "Album"),
    }
}

/// The ASCII upper-case form of `s`.
pub open spec fn ascii_upper(s: Seq<char>) -> Seq<char> {
    s.map_values(|c: char| if 'a' <= c && c <= 'z' { ((c as u32) - 32) as char } else { c })
}

/// The engine or format label of a database or model file named by its
/// extension: the extension in upper case (`str::to_uppercase` on these
/// ASCII names).
pub fn extension_label(ext: &str) -> (r: String)
    requires
        database_exts().contains(ext@) || model_exts().contains(ext@),
    ensures
        r@ == ascii_upper(ext@),
{
    let e = chars_of(ext);
    let mut out: Vec<char> = Vec::new();
    let mut i: usize = 0;
    while i < e.len()
        invariant
            e@ == ext@,
            i <= e@.len(),
            out@ == ascii_upper(e@.take(i as int)),
        decreases e.len() - i,
    {
        let c = e[i];
        let u = if 'a' <= c && c <= 'z' {
            (((c as u32) - 32) as u8) as char
        } else {
            c
        };
        out.push(u);
        assert(out@ =~= ascii_upper(e@.take(i + 1)));
        i = i + 1;
    }
    assert(e@.take(e@.len() as int) =~= e@);
    crate::text::string_of(&out)
}

/// The value of a sequence of decimal digits.
pub open spec fn digits_value(s: Seq<char>) -> nat
    decreases s.len(),
{
    if s.len() == 0 {
        0
    } else {
        digits_value(s.drop_last()) * 10 + ((s.last() as int) - 48) as nat
    }
}

/// Whether `s` is a non-empty sequence of ASCII digits.
pub open spec fn all_digits(s: Seq<char>) -> bool {
    s.len() > 0 && forall|i: int| 0 <= i < s.len() ==> '0' <= #[trigger] s[i] && s[i] <= '9'
}

/// `str::parse::<u64>`: an optional `+` followed by decimal digits whose
/// value fits in 64 bits.
pub open spec fn parse_u64_spec(s: Seq<char>) -> Option<u64> {
    let d = if s.len() > 0 && s[0] == '+' {
        s.drop_first()
    } else {
        s
    };
    if all_digits(d) && digits_value(d) <= u64::MAX {
        Some(digits_value(d) as u64)
    } else {
        None
    }
}

proof fn lemma_digits_value_grows(s: Seq<char>, i: int)
    requires
        all_digits(s),
        0 <= i <= s.len(),
    ensures
        digits_value(s.take(i)) <= digits_value(s),
    decreases s.len() - i,
{
    if i < s.len() {
        lemma_digits_value_grows(s, i + 1);
        assert(s.take(i + 1).drop_last() =~= s.take(i));
    } else {
        assert(s.take(i) =~= s);
    }
}

/// Parses a count written in decimal (see `parse_u64_spec`).
pub fn parse_u64(text: &str) -> (r: Option<u64>)
    ensures
        r == parse_u64_spec(text@),
{
    let v = chars_of(text);
    let start: usize = if v.len() > 0 && v[0] == '+' {
        1
    } else {
        0
    };
    let ghost d = if text@.len() > 0 && text@[0] == '+' {
        text@.drop_first()
    } else {
        text@
    };
    assert(d =~= v@.subrange(start as int, v@.len() as int));
    if start >= v.len() {
        return None;
    }
    let mut value: u64 = 0;
    let mut i: usize = start;
    while i < v.len()
        invariant
            v@ == text@,
            d == v@.subrange(start as int, v@.len() as int),
            d == (if text@.len() > 0 && text@[0] == '+' {
                text@.drop_first()
            } else {
                text@
            }),
            start <= i <= v@.len(),
            forall|j: int| start <= j < i ==> '0' <= #[trigger] v@[j] && v@[j] <= '9',
            value == digits_value(d.take(i - start)),
        decreases v.len() - i,
    {
        let c = v[i];
        if !('0' <= c && c <= '9') {
            proof {
                assert(d[i - start] == c);
                assert(!all_digits(d));
            }
            return None;
        }
        proof {
            let k = i - start;
            assert(d.take(k + 1).drop_last() =~= d.take(k));
            assert(d.take(k + 1).last() == c);
            assert(digits_value(d.take(k + 1)) == value * 10 + ((c as int) - 48));
        }
        let digit = ((c as u32) - 48) as u64;
        let next = match value.checked_mul(10) {
            Some(m) => m.checked_add(digit),
            None => None,
        };
        match next {
            Some(n) => {
                value = n;
            },
            None => {
                proof {
                    if all_digits(d) {
                        lemma_digits_value_grows(d, i - start + 1);
                    }
                }
                return None;
            },
        }
        i = i + 1;
    }
    assert(d.take(d.len() as int) =~= d);
    Some(value)
}

/// The number of line feeds in a text.
pub open spec fn newline_count(s: Seq<char>) -> nat
    decreases s.len(),
{
    if s.len() == 0 {
        0
    } else {
        newline_count(s.drop_last()) + if s.last() == '\n' {
            1nat
        } else {
            0nat
        }
    }
}

proof fn lemma_newline_bound(s: Seq<char>)
    ensures
        newline_count(s) <= s.len(),
    decreases s.len(),
{
    if s.len() > 0 {
        lemma_newline_bound(s.drop_last());
    }
}

/// The number of lines of a text (`str::lines().count()`): one per line
/// feed, plus a last line that does not end with one.
pub open spec fn line_count_spec(s: Seq<char>) -> nat {
    newline_count(s) + if s.len() > 0 && s.last() != '\n' {
        1nat
    } else {
        0nat
    }
}

/// The number of words of a text (`str::split_whitespace().count()`): the
/// maximal runs of non-whitespace characters.
pub open spec fn word_count_spec(s: Seq<char>) -> nat
    decreases s.len(),
{
    if s.len() == 0 {
        0
    } else if !crate::text::is_ws(s.last()) && (s.len() == 1 || crate::text::is_ws(
        s[s.len() - 2],
    )) {
        word_count_spec(s.drop_last()) + 1
    } else {
        word_count_spec(s.drop_last())
    }
}

/// Line, word and character counts of extracted text.
pub struct TextStats {
    pub line_count: usize,
    pub word_count: usize,
    pub char_count: usize,
}

/// The statistics of a text, none for an empty text.
pub fn text_stats(content: &str) -> (r: Option<TextStats>)
    ensures
        content@.len() == 0 <==> r is None,
        r matches Some(st) ==> {
            &&& st.line_count == line_count_spec(content@)
            &&& st.word_count == word_count_spec(content@)
            &&& st.char_count == content@.len()
        },
{
    let v = chars_of(content);
    if v.len() == 0 {
        return None;
    }
    let mut lines: usize = 0;
    let mut words: usize = 0;
    let mut i: usize = 0;
    while i < v.len()
        invariant
            v@ == content@,
            i <= v@.len(),
            lines == newline_count(v@.take(i as int)),
            words == word_count_spec(v@.take(i as int)),
            lines <= i,
            words <= i,
        decreases v.len() - i,
    {
        let ghost t = v@.take(i + 1);
        assert(t.drop_last() =~= v@.take(i as int));
        assert(t.last() == v@[i as int]);
        let c = v[i];
        if c == '\n' {
            lines = lines + 1;
        }
        if !crate::text::char_is_ws(c) && (i == 0 || crate::text::char_is_ws(v[i - 1])) {
            words = words + 1;
        }
        i = i + 1;
    }
    assert(v@.take(v@.len() as int) =~= v@);
    if v[v.len() - 1] != '\n' {
        proof {
            lemma_newline_bound(v@.drop_last());
        }
        lines = lines + 1;
    }
    Some(TextStats { line_count: lines, word_count: words, char_count: v.len() })
}

/// A number written with at least two digits (`{:02}`).
pub open spec fn pad2(n: nat) -> Seq<char> {
    if n < 10 {
        "0"@ + crate::text::decimal(n)
    } else {
        crate::text::decimal(n)
    }
}

fn pad2_exec(n: u64) -> (r: Vec<char>)
    ensures
        r@ == pad2(n as nat),
{
    let d = crate::text::decimal_chars(n);
    if n < 10 {
        let mut r = chars_of("0");
        crate::text::extend_chars(&mut r, &d);
        r
    } else {
        d
    }
}

/// A duration in seconds as `MM:SS` (minutes may exceed two digits).
pub open spec fn clock_mm_ss_spec(secs: nat) -> Seq<char> {
    pad2(secs / 60) + ":"@ + pad2(secs % 60)
}

/// A duration in seconds as `HH:MM:SS`.
pub open spec fn clock_hh_mm_ss_spec(secs: nat) -> Seq<char> {
    pad2(secs / 3600) + ":"@ + pad2((secs % 3600) / 60) + ":"@ + pad2(secs % 60)
}

/// The duration of a sound (see `clock_mm_ss_spec`).
pub fn clock_mm_ss(secs: u64) -> (r: String)
    ensures
        r@ == clock_mm_ss_spec(secs as nat),
{
    let mut out = pad2_exec(secs / 60);
    crate::text::extend_str(&mut out, ":");
    crate::text::extend_chars(&mut out, &pad2_exec(secs % 60));
    crate::text::string_of(&out)
}

/// The duration of a video (see `clock_hh_mm_ss_spec`).
pub fn clock_hh_mm_ss(secs: u64) -> (r: String)
    ensures
        r@ == clock_hh_mm_ss_spec(secs as nat),
{
    let mut out = pad2_exec(secs / 3600);
    crate::text::extend_str(&mut out, ":");
    crate::text::extend_chars(&mut out, &pad2_exec((secs % 3600) / 60));
    crate::text::extend_str(&mut out, ":");
    crate::text::extend_chars(&mut out, &pad2_exec(secs % 60));
    crate::text::string_of(&out)
}

/// The time spent on a document's text layer: the whole document time
/// less the OCR time, never below zero.
pub fn text_layer_ms(total_doc_ms: u64, ocr_ms: Option<u64>) -> (r: u64)
    ensures
        r == (match ocr_ms {
            Some(o) => if total_doc_ms >= o { (total_doc_ms - o) as u64 } else { 0 },
            None => total_doc_ms,
        }),
{
    let o = match ocr_ms {
        Some(o) => o,
        None => 0,
    };
    total_doc_ms.saturating_sub(o)
}

/// `o`, or zero without it.
pub open spec fn or_zero(o: Option<u64>) -> u64 {
    match o {
        Some(v) => v,
        None => 0,
    }
}

/// The larger of two counts.
pub open spec fn max_u64(a: u64, b: u64) -> u64 {
    if a >= b {
        a
    } else {
        b
    }
}

/// The timing record of an extraction whose stages ran in parallel: the
/// total is the longest stage; the text time is the plain-text time, else
/// the document time; a zero metadata time is left out.
pub fn extraction_benchmark(
    magika_ms: u64,
    metadata_ms: u64,
    text_ms: Option<u64>,
    document_ms: Option<u64>,
    ocr_ms: Option<u64>,
) -> (r: crate::core_model::OmniBenchmark)
    ensures
        r.text_ms == (if text_ms is Some { text_ms } else { document_ms }),
        r.total_ms == max_u64(
            max_u64(max_u64(magika_ms, metadata_ms), or_zero(r.text_ms)),
            or_zero(ocr_ms),
        ),
        r.magika_ms == Some(magika_ms),
        r.metadata_ms == (if metadata_ms > 0 { Some(metadata_ms) } else { None }),
        r.document_ms is None,
        r.ocr_ms == ocr_ms,
        r.html_ms is None,
        r.thumbnail_ms is None,
{
    let text = match text_ms {
        Some(t) => Some(t),
        None => document_ms,
    };
    let t0 = match text {
        Some(t) => t,
        None => 0,
    };
    let o0 = match ocr_ms {
        Some(o) => o,
        None => 0,
    };
    let mut total = if magika_ms >= metadata_ms {
        magika_ms
    } else {
        metadata_ms
    };
    if t0 > total {
        total = t0;
    }
    if o0 > total {
        total = o0;
    }
    crate::core_model::OmniBenchmark {
        total_ms: total,
        magika_ms: Some(magika_ms),
        metadata_ms: if metadata_ms > 0 {
            Some(metadata_ms)
        } else {
            None
        },
        text_ms: text,
        document_ms: None,
        ocr_ms,
        html_ms: None,
        thumbnail_ms: None,
    }
}

/// The header of an extraction result: where the file is, what it is and
/// whether it was too large to read further.
pub struct ExtractionHeader {
    /// The path with the platform's separators.
    pub file_path: String,
    pub mime_type: String,
    pub file_size: u64,
    /// An empty file counts as corrupted.
    pub is_corrupted: bool,
    /// Above the size limit, nothing but this header is extracted.
    pub over_size_limit: bool,
    pub magika_label: String,
    pub magika_group: String,
    pub magika_name: String,
    pub magika_description: String,
    /// The extension, when there is one.
    pub extensions: Vec<String>,
}

/// The header of the extraction of a file (see `ExtractionHeader`).
pub fn extraction_header(
    path: &str,
    windows: bool,
    file_size: u64,
    mime: &str,
    ext: &str,
    max_file_size_mb: u64,
) -> (r: ExtractionHeader)
    requires
        max_file_size_mb * 1048576 <= u64::MAX,
    ensures
        r.file_path@ == crate::paths::native_path_spec(path@, windows),
        r.mime_type@ == mime@,
        r.file_size == file_size,
        r.is_corrupted == (file_size == 0),
        r.over_size_limit == (file_size > max_file_size_mb * 1048576),
        r.magika_label@ == magika_label_spec(ext@),
        r.magika_group@ == magika_group_spec(ext@, mime@),
        r.magika_name@ == "Magika Identified Format ("@ + mime@ + ")"@,
        r.magika_description@ == "Magika Neural Network Classification for "@ + mime@,
        r.extensions.deep_view() == (if ext@.len() == 0 {
            Seq::<Seq<char>>::empty()
        } else {
            seq![ext@]
        }),
{
    let mut name = chars_of("Magika Identified Format (");
    crate::text::extend_str(&mut name, mime);
    crate::text::extend_str(&mut name, ")");
    let mut desc = chars_of("Magika Neural Network Classification for ");
    crate::text::extend_str(&mut desc, mime);
    let mut extensions: Vec<String> = Vec::new();
    if ext.unicode_len() > 0 {
        extensions.push(ext.to_owned());
    }
    proof {
        if ext@.len() == 0 {
            assert(extensions.deep_view() =~= Seq::<Seq<char>>::empty());
        } else {
            assert(extensions.deep_view() =~= seq![ext@]);
        }
    }
    ExtractionHeader {
        file_path: crate::paths::to_native_path_str(path, windows),
        mime_type: mime.to_owned(),
        file_size,
        is_corrupted: file_size == 0,
        over_size_limit: exceeds_size_limit(file_size, max_file_size_mb),
        magika_label: magika_label(ext),
        magika_group: magika_group(ext, mime).to_owned(),
        magika_name: crate::text::string_of(&name),
        magika_description: crate::text::string_of(&desc),
        extensions,
    }
}

} // verus!
