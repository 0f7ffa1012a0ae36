//! DOCX text with the OCR text of its embedded images put in place: which
//! relationships point at images, how far images are read by OCR, how the
//! paragraphs of `word/document.xml` are assembled from its XML events, and
//! the final text.
use vstd::prelude::*;
use crate::text::{chars_of, chars_eq, extend_chars, extend_str, string_of, trim, trim_str, starts_with_str, contains_chars, contains_seq, ends_with_str};
use crate::extract_text::{ocr_block_spec, OmniExtractor};
use quick_xml::events::{BytesStart, Event};

verus! {

#[verifier::external_type_specification]
#[verifier::external_body]
#[verifier::reject_recursive_types(R)]
pub struct ExXmlReader<R>(quick_xml::Reader<R>);

#[verifier::external_type_specification]
#[verifier::external_body]
pub struct ExBytesStart<'a>(BytesStart<'a>);

/// What `regex::Regex::new(pattern)` and `captures_iter(text)` yield when
/// each match is read as its first two groups (`Captures::get`, none for a
/// group that took no part in the match): none when the pattern does not
/// compile.
pub uninterp spec fn regex_pairs(pattern: Seq<char>, text: Seq<char>) -> Option<
    Seq<(Option<Seq<char>>, Option<Seq<char>>)>,
>;

/// What `std::path::Path::file_name` yields for a path.
pub uninterp spec fn path_file_name(path: Seq<char>) -> Option<Seq<char>>;

/// Compiles `pattern` with `regex::Regex::new` and reads groups 1 and 2 of
/// every match of `captures_iter` over `text` with `Captures::get`. The
/// result is named by `regex_pairs` (it depends on the pattern and the text
/// alone).
#[verifier::external_body]
fn capture_pairs(pattern: &str, text: &str) -> (r: Option<Vec<(Option<String>, Option<String>)>>)
    ensures
        r.deep_view() == regex_pairs(pattern@, text@),
{
    match regex::Regex::new(pattern) {
        Ok(re) => Some(
            re.captures_iter(text)
                .map(|c| (c.get(1).map(|m| m.as_str().to_string()), c.get(2).map(|m| m.as_str().to_string())))
                .collect(),
        ),
        Err(_) => None,
    }
}

/// `std::path::Path::new(path).file_name()`, as text. The result is named
/// by `path_file_name`.
#[verifier::external_body]
fn file_name_of(path: &str) -> (r: Option<String>)
    ensures
        crate::extract_plan::opt_view(r) == path_file_name(path@),
{
    std::path::Path::new(path).file_name().and_then(|n| n.to_str()).map(|n| n.to_string())
}

/// One event of an XML reader, as plain values: element names and
/// attribute keys and values are read as lossy UTF-8, text is unescaped
/// (`None` when unescaping fails).
pub enum XmlEvent {
    Start { name: String, attrs: Vec<(String, String)> },
    Empty { attrs: Vec<(String, String)> },
    Text(Option<String>),
    End { name: String },
    Other,
    /// The end of the input, or a malformed document.
    Stop,
}

/// The events `quick_xml` reads from an XML text with `trim_text(true)`,
/// each converted to an `XmlEvent`, up to (not including) the end of the
/// input or the first error.
pub uninterp spec fn xml_events(xml: Seq<char>) -> Seq<XmlEvent>;

/// The events a reader yields from where it stands, converted, up to (not
/// including) its next end of input or error.
pub uninterp spec fn reader_pending(reader: quick_xml::Reader<&[u8]>) -> Seq<XmlEvent>;

/// `quick_xml::Reader::from_str` with `trim_text(true)`: a reader whose
/// pending events are those of the whole text (named by `xml_events`); a
/// pending event is never the end of the input or an error.
#[verifier::external_body]
fn xml_reader(xml: &str) -> (r: quick_xml::Reader<&[u8]>)
    ensures
        reader_pending(r) == xml_events(xml@),
        forall|i: int| 0 <= i < reader_pending(r).len() ==> !(#[trigger] reader_pending(r)[i] is Stop),
{
    let mut reader = quick_xml::Reader::from_str(xml);
    reader.config_mut().trim_text(true);
    reader
}

/// The attributes of a start or empty tag (`BytesStart::attributes`), the
/// malformed ones skipped, keys and values read as lossy UTF-8. Nothing is
/// stated of them.
#[verifier::external_body]
fn tag_attributes(e: &BytesStart) -> (r: Vec<(String, String)>) {
    e.attributes()
        .flatten()
        .map(|a| (String::from_utf8_lossy(a.key.into_inner()).into_owned(), String::from_utf8_lossy(&a.value).into_owned()))
        .collect()
}

/// `Reader::read_event`, the event converted to an `XmlEvent`: the first
/// pending event, after which the rest are pending (none of them the end of
/// the input or an error); `Stop` when none is pending (the reader is at
/// the end of the input or at an error). Where the reader stands after a
/// `Stop` is not stated.
#[verifier::external_body]
fn next_xml_event(reader: &mut quick_xml::Reader<&[u8]>) -> (r: XmlEvent)
    ensures
        reader_pending(*old(reader)).len() > 0 ==> r == reader_pending(*old(reader))[0]
            && reader_pending(*final(reader)) == reader_pending(*old(reader)).drop_first(),
        reader_pending(*old(reader)).len() == 0 ==> r is Stop,
{
    let text = |b: &[u8]| String::from_utf8_lossy(b).into_owned();
    match reader.read_event() {
        Ok(Event::Start(e)) => XmlEvent::Start { name: text(e.name().into_inner()), attrs: tag_attributes(&e) },
        Ok(Event::Empty(e)) => XmlEvent::Empty { attrs: tag_attributes(&e) },
        Ok(Event::Text(e)) => XmlEvent::Text(e.unescape().ok().map(|t| t.into_owned())),
        Ok(Event::End(e)) => XmlEvent::End { name: text(e.name().into_inner()) },
        Ok(Event::Eof) | Err(_) => XmlEvent::Stop,
        Ok(_) => XmlEvent::Other,
    }
}

/// The pattern of a relationship element: its id and its target.
pub const RELATIONSHIP_PATTERN: &'static str = r#"<Relationship\s+[^>]*Id="([^"]+)"[^>]*Target="([^"]+)""#;

/// Whether a relationship target names an image: it mentions `image` or
/// ends with an image extension, letter case aside.
pub open spec fn image_target_spec(target: Seq<char>) -> bool {
    let l = crate::unicode::unicode_lowercase(target);
    ||| contains_seq(l, "image"@)
    ||| ".png"@.is_suffix_of(l)
    ||| ".jpg"@.is_suffix_of(l)
    ||| ".jpeg"@.is_suffix_of(l)
    ||| ".webp"@.is_suffix_of(l)
    ||| ".gif"@.is_suffix_of(l)
}

/// The `(id, target)` pairs, both groups present, whose target names an
/// image, in order.
pub open spec fn image_pairs(pairs: Seq<(Option<Seq<char>>, Option<Seq<char>>)>) -> Seq<(Seq<char>, Seq<char>)>
    decreases pairs.len(),
{
    if pairs.len() == 0 {
        Seq::empty()
    } else {
        let r = image_pairs(pairs.drop_last());
        match pairs.last() {
            (Some(id), Some(target)) => if image_target_spec(target) {
                r.push((id, target))
            } else {
                r
            },
            _ => r,
        }
    }
}

/// The image relationships of a relationships document.
pub open spec fn image_relationships_spec(rels_xml: Seq<char>) -> Seq<(Seq<char>, Seq<char>)> {
    match regex_pairs(RELATIONSHIP_PATTERN@, rels_xml) {
        Some(ps) => image_pairs(ps),
        None => Seq::empty(),
    }
}

fn is_image_target(target: &str) -> (r: bool)
    ensures
        r == image_target_spec(target@),
{
    let l = chars_of(crate::unicode::lowercase_string(target).as_str());
    contains_chars(&l, &chars_of("image")) || ends_with_str(&l, ".png") || ends_with_str(&l, ".jpg")
        || ends_with_str(&l, ".jpeg") || ends_with_str(&l, ".webp") || ends_with_str(&l, ".gif")
}

/// The `(id, target)` relationships of a DOCX that point at images (see
/// `image_relationships_spec`).
pub fn image_relationships(rels_xml: &str) -> (r: Vec<(String, String)>)
    ensures
        r.deep_view() == image_relationships_spec(rels_xml@),
{
    let pairs = match capture_pairs(RELATIONSHIP_PATTERN, rels_xml) {
        Some(p) => p,
        None => {
            return Vec::new();
        },
    };
    let ghost pv = pairs.deep_view();
    let mut out: Vec<(String, String)> = Vec::new();
    let mut i: usize = 0;
    while i < pairs.len()
        invariant
            pv == pairs.deep_view(),
            i <= pairs.len(),
            out.deep_view() == image_pairs(pv.take(i as int)),
        decreases pairs.len() - i,
    {
        proof {
            assert(pv.take(i + 1).drop_last() =~= pv.take(i as int));
            assert(pv.take(i + 1).last() == pv[i as int]);
        }
        match (&pairs[i].0, &pairs[i].1) {
            (Some(id), Some(target)) => {
                if is_image_target(target.as_str()) {
                    let ghost before = out.deep_view();
                    out.push((id.clone(), target.clone()));
                    assert(out.deep_view() =~= before.push((id@, target@)));
                }
            },
            _ => {},
        }
        i = i + 1;
    }
    assert(pv.take(pairs.len() as int) =~= pv);
    out
}

/// The value of the last pair with key `k`: what a map filled in order
/// holds for `k`.
pub open spec fn lookup_last(pairs: Seq<(Seq<char>, Seq<char>)>, k: Seq<char>) -> Option<Seq<char>>
    decreases pairs.len(),
{
    if pairs.len() == 0 {
        None
    } else if pairs.last().0 == k {
        Some(pairs.last().1)
    } else {
        lookup_last(pairs.drop_last(), k)
    }
}

/// The value of the last pair with key `k` (see `lookup_last`).
pub fn lookup_last_exec(pairs: &Vec<(String, String)>, k: &str) -> (r: Option<String>)
    ensures
        crate::extract_plan::opt_view(r) == lookup_last(pairs.deep_view(), k@),
{
    let ghost pv = pairs.deep_view();
    let kc = chars_of(k);
    let mut n: usize = pairs.len();
    assert(pv.take(n as int) =~= pv);
    while n > 0
        invariant
            pv == pairs.deep_view(),
            kc@ == k@,
            n <= pairs.len(),
            lookup_last(pv, k@) == lookup_last(pv.take(n as int), k@),
        decreases n,
    {
        let ghost t = pv.take(n as int);
        assert(t.last() == pv[n - 1]);
        assert(t.drop_last() =~= pv.take(n - 1));
        if chars_eq(&chars_of(pairs[n - 1].0.as_str()), &kc) {
            return Some(pairs[n - 1].1.clone());
        }
        n = n - 1;
    }
    None
}

/// The OCR text of an image target: by the target, by the target under
/// `word/`, or by its file name.
pub open spec fn image_ocr_for(ocr: Seq<(Seq<char>, Seq<char>)>, target: Seq<char>) -> Option<Seq<char>> {
    match lookup_last(ocr, target) {
        Some(t) => Some(t),
        None => match lookup_last(ocr, "word/"@ + target) {
            Some(t) => Some(t),
            None => match path_file_name(target) {
                Some(f) => lookup_last(ocr, f),
                None => None,
            },
        },
    }
}

/// The OCR block an attribute brings: an image reference (`r:embed` or
/// `r:id`) to an image whose OCR text is not blank.
pub open spec fn attr_block(
    attr: (Seq<char>, Seq<char>),
    rels: Seq<(Seq<char>, Seq<char>)>,
    ocr: Seq<(Seq<char>, Seq<char>)>,
) -> Seq<char> {
    if attr.0 == "r:embed"@ || attr.0 == "r:id"@ {
        match lookup_last(rels, attr.1) {
            Some(target) => match image_ocr_for(ocr, target) {
                Some(t) => if trim(t).len() > 0 {
                    ocr_block_spec(t)
                } else {
                    Seq::empty()
                },
                None => Seq::empty(),
            },
            None => Seq::empty(),
        }
    } else {
        Seq::empty()
    }
}

/// The OCR blocks of an element's attributes, in order.
pub open spec fn attrs_blocks(
    attrs: Seq<(Seq<char>, Seq<char>)>,
    rels: Seq<(Seq<char>, Seq<char>)>,
    ocr: Seq<(Seq<char>, Seq<char>)>,
) -> Seq<char>
    decreases attrs.len(),
{
    if attrs.len() == 0 {
        Seq::empty()
    } else {
        attrs_blocks(attrs.drop_last(), rels, ocr) + attr_block(attrs.last(), rels, ocr)
    }
}

fn image_ocr_exec(ocr: &Vec<(String, String)>, target: &String) -> (r: Option<String>)
    ensures
        crate::extract_plan::opt_view(r) == image_ocr_for(ocr.deep_view(), target@),
{
    match lookup_last_exec(ocr, target.as_str()) {
        Some(t) => Some(t),
        None => {
            let mut w = chars_of("word/");
            extend_str(&mut w, target.as_str());
            let ws = string_of(&w);
            match lookup_last_exec(ocr, ws.as_str()) {
                Some(t) => Some(t),
                None => match file_name_of(target.as_str()) {
                    Some(f) => lookup_last_exec(ocr, f.as_str()),
                    None => None,
                },
            }
        },
    }
}

fn attrs_blocks_exec(
    attrs: &Vec<(String, String)>,
    rels: &Vec<(String, String)>,
    ocr: &Vec<(String, String)>,
) -> (r: Vec<char>)
    ensures
        r@ == attrs_blocks(attrs.deep_view(), rels.deep_view(), ocr.deep_view()),
{
    let ghost av = attrs.deep_view();
    let mut out: Vec<char> = Vec::new();
    let mut i: usize = 0;
    while i < attrs.len()
        invariant
            av == attrs.deep_view(),
            i <= attrs.len(),
            out@ == attrs_blocks(av.take(i as int), rels.deep_view(), ocr.deep_view()),
        decreases attrs.len() - i,
    {
        proof {
            assert(av.take(i + 1).drop_last() =~= av.take(i as int));
            assert(av.take(i + 1).last() == av[i as int]);
        }
        let key = chars_of(attrs[i].0.as_str());
        if chars_eq(&key, &chars_of("r:embed")) || chars_eq(&key, &chars_of("r:id")) {
            match lookup_last_exec(rels, attrs[i].1.as_str()) {
                Some(target) => match image_ocr_exec(ocr, &target) {
                    Some(t) => {
                        if trim_str(t.as_str()).as_str().unicode_len() > 0 {
                            let block = OmniExtractor::format_markitdown_ocr_block(t.as_str());
                            extend_str(&mut out, block.as_str());
                        }
                    },
                    None => {},
                },
                None => {},
            }
        }
        i = i + 1;
    }
    assert(av.take(attrs.len() as int) =~= av);
    out
}

/// The state of paragraph assembly: inside a text run or not, the text of
/// the current paragraph, and the paragraphs finished so far.
pub open spec fn docx_step(
    st: (bool, Seq<char>, Seq<Seq<char>>),
    ev: XmlEvent,
    rels: Seq<(Seq<char>, Seq<char>)>,
    ocr: Seq<(Seq<char>, Seq<char>)>,
) -> (bool, Seq<char>, Seq<Seq<char>>) {
    let (in_text, cur, lines) = st;
    match ev {
        XmlEvent::Start { name, attrs } => {
            let (it, c) = if name@ == "w:p"@ {
                (in_text, Seq::<char>::empty())
            } else if name@ == "w:t"@ {
                (true, cur)
            } else {
                (in_text, cur)
            };
            (it, c + attrs_blocks(attrs.deep_view(), rels, ocr), lines)
        },
        XmlEvent::Empty { attrs } => (in_text, cur + attrs_blocks(attrs.deep_view(), rels, ocr), lines),
        XmlEvent::Text(t) => match t {
            Some(t) => if in_text {
                (in_text, cur + t@, lines)
            } else {
                st
            },
            None => st,
        },
        XmlEvent::End { name } => if name@ == "w:p"@ {
            if trim(cur).len() > 0 {
                (in_text, cur, lines.push(trim(cur)))
            } else {
                st
            }
        } else if name@ == "w:t"@ {
            (false, cur, lines)
        } else {
            st
        },
        XmlEvent::Other => st,
        XmlEvent::Stop => st,
    }
}

/// The state after a sequence of events, from the start.
pub open spec fn docx_state_after(
    events: Seq<XmlEvent>,
    rels: Seq<(Seq<char>, Seq<char>)>,
    ocr: Seq<(Seq<char>, Seq<char>)>,
) -> (bool, Seq<char>, Seq<Seq<char>>)
    decreases events.len(),
{
    if events.len() == 0 {
        (false, Seq::empty(), Seq::empty())
    } else {
        docx_step(docx_state_after(events.drop_last(), rels, ocr), events.last(), rels, ocr)
    }
}

/// Every paragraph is trimmed and not blank.
pub open spec fn clean_paragraphs(lines: Seq<Seq<char>>) -> bool {
    forall|i: int| 0 <= i < lines.len() ==> trim(#[trigger] lines[i]) == lines[i] && lines[i].len() > 0
}

/// The paragraphs of `word/document.xml` given its events, the image
/// relationships `(id, target)` and the OCR texts `(key, text)`: the
/// trimmed non-blank text of each `w:p`, made of its `w:t` text runs and
/// the OCR blocks of the images it refers to.
pub fn paragraphs_of_events(
    events: &Vec<XmlEvent>,
    rels: &Vec<(String, String)>,
    ocr: &Vec<(String, String)>,
) -> (r: Vec<String>)
    ensures
        r.deep_view() == docx_state_after(events@, rels.deep_view(), ocr.deep_view()).2,
        clean_paragraphs(r.deep_view()),
{
    let ghost rv = rels.deep_view();
    let ghost ov = ocr.deep_view();
    let mut in_text = false;
    let mut cur: Vec<char> = Vec::new();
    let mut lines: Vec<String> = Vec::new();
    let mut i: usize = 0;
    while i < events.len()
        invariant
            rv == rels.deep_view(),
            ov == ocr.deep_view(),
            i <= events.len(),
            (in_text, cur@, lines.deep_view()) == docx_state_after(events@.take(i as int), rv, ov),
            clean_paragraphs(lines.deep_view()),
        decreases events.len() - i,
    {
        proof {
            assert(events@.take(i + 1).drop_last() =~= events@.take(i as int));
            assert(events@.take(i + 1).last() == events@[i as int]);
        }
        match &events[i] {
            XmlEvent::Start { name, attrs } => {
                let n = chars_of(name.as_str());
                if chars_eq(&n, &chars_of("w:p")) {
                    cur = Vec::new();
                } else if chars_eq(&n, &chars_of("w:t")) {
                    in_text = true;
                }
                let blocks = attrs_blocks_exec(attrs, rels, ocr);
                extend_chars(&mut cur, &blocks);
            },
            XmlEvent::Empty { attrs } => {
                let blocks = attrs_blocks_exec(attrs, rels, ocr);
                extend_chars(&mut cur, &blocks);
            },
            XmlEvent::Text(t) => match t {
                Some(t) => {
                    if in_text {
                        extend_str(&mut cur, t.as_str());
                    }
                },
                None => {},
            },
            XmlEvent::End { name } => {
                let n = chars_of(name.as_str());
                if chars_eq(&n, &chars_of("w:p")) {
                    let t = crate::text::trim_chars(&cur);
                    if t.len() > 0 {
                        let ghost before = lines.deep_view();
                        lines.push(string_of(&t));
                        proof {
                            assert(lines.deep_view() =~= before.push(trim(cur@)));
                            crate::text::lemma_trim_idempotent(cur@);
                        }
                    }
                } else if chars_eq(&n, &chars_of("w:t")) {
                    in_text = false;
                }
            },
            XmlEvent::Other => {},
            XmlEvent::Stop => {},
        }
        i = i + 1;
    }
    assert(events@.take(events.len() as int) =~= events@);
    lines
}

/// The paragraphs of a `word/document.xml` (see `paragraphs_of_events`):
/// its events are read until the end of the input or the first malformed
/// part; the result is the paragraphs of those events (`xml_events`), every
/// one trimmed and not blank.
pub fn read_docx_paragraphs(
    document_xml: &str,
    rels: &Vec<(String, String)>,
    ocr: &Vec<(String, String)>,
) -> (r: Vec<String>)
    ensures
        r.deep_view() == docx_state_after(xml_events(document_xml@), rels.deep_view(), ocr.deep_view()).2,
        clean_paragraphs(r.deep_view()),
{
    let ghost all = xml_events(document_xml@);
    let mut reader = xml_reader(document_xml);
    let mut events: Vec<XmlEvent> = Vec::new();
    loop
        invariant_except_break
            all == events@ + reader_pending(reader),
            forall|i: int| 0 <= i < reader_pending(reader).len() ==> !(#[trigger] reader_pending(reader)[i] is Stop),
        ensures
            events@ == all,
        decreases reader_pending(reader).len(),
    {
        let ghost before = reader_pending(reader);
        let ev = next_xml_event(&mut reader);
        let stop = match ev {
            XmlEvent::Stop => true,
            _ => false,
        };
        if stop {
            proof {
                if before.len() > 0 {
                    assert(!(before[0] is Stop));
                }
                assert(events@ + before =~= events@);
            }
            break;
        }
        proof {
            assert(forall|i: int| 0 <= i < reader_pending(reader).len() ==> reader_pending(reader)[i] == before[i + 1]);
        }
        events.push(ev);
        proof {
            assert(events@ + reader_pending(reader) =~= all);
        }
    }
    let r = paragraphs_of_events(&events, rels, ocr);
    r
}

/// Whether a DOCX archive entry is an embedded medium (`word/media/…` or
/// `media/…`, letter case aside).
pub open spec fn media_entry_spec(name: Seq<char>) -> bool {
    let l = crate::unicode::unicode_lowercase(name);
    "word/media/"@.is_prefix_of(l) || "media/"@.is_prefix_of(l)
}

/// Whether an archive entry is an embedded medium (see `media_entry_spec`).
pub fn is_media_entry(name: &str) -> (r: bool)
    ensures
        r == media_entry_spec(name@),
{
    let l = chars_of(crate::unicode::lowercase_string(name).as_str());
    starts_with_str(&l, "word/media/") || starts_with_str(&l, "media/")
}

/// `s` without its leading `word/` prefixes.
pub open spec fn strip_word_prefix(s: Seq<char>) -> Seq<char>
    decreases s.len(),
{
    if "word/"@.is_prefix_of(s) && s.len() >= 5 {
        strip_word_prefix(s.skip(5))
    } else {
        s
    }
}

/// The keys an image's OCR text is filed under: its entry name, the name
/// without `word/`, and its file name.
pub open spec fn ocr_keys_spec(name: Seq<char>) -> Seq<Seq<char>> {
    let base = seq![name, strip_word_prefix(name)];
    match path_file_name(name) {
        Some(f) => base.push(f),
        None => base,
    }
}

/// The keys an image's OCR text is filed under (see `ocr_keys_spec`).
pub fn ocr_keys(name: &str) -> (r: Vec<String>)
    ensures
        r.deep_view() == ocr_keys_spec(name@),
{
    let v = chars_of(name);
    let mut start: usize = 0;
    let mut rest = crate::text::slice_chars(&v, 0, v.len());
    assert(v@.subrange(0, v@.len() as int) =~= v@);
    while starts_with_str(&rest, "word/") && rest.len() >= 5
        invariant
            start <= v.len(),
            rest@ == v@.skip(start as int),
            strip_word_prefix(v@) == strip_word_prefix(rest@),
        decreases rest.len(),
    {
        proof {
            reveal_strlit("word/");
            assert(rest@.skip(5) =~= v@.skip(start + 5));
        }
        start = start + 5;
        rest = crate::text::slice_chars(&v, start, v.len());
        assert(v@.subrange(start as int, v@.len() as int) =~= v@.skip(start as int));
    }
    let mut keys: Vec<String> = Vec::new();
    keys.push(name.to_owned());
    keys.push(string_of(&rest));
    match file_name_of(name) {
        Some(f) => {
            keys.push(f);
        },
        None => {},
    }
    assert(keys.deep_view() =~= ocr_keys_spec(name@));
    keys
}

/// How far the embedded images of a DOCX are read by OCR.
pub struct DocxOcrBudget {
    /// The item limit: zero turns OCR off, a negative one sets no limit.
    pub max_items: i32,
    /// The byte budget of OCR text (zero: none).
    pub limit: usize,
    /// Images whose OCR text was kept.
    pub recognized: usize,
    /// Bytes of OCR text kept.
    pub accumulated: usize,
}

impl DocxOcrBudget {
    /// A fresh budget from the item limit and the content limit in
    /// kibibytes.
    pub fn new(max_items: i32, max_content_size_kb: usize) -> (r: DocxOcrBudget)
        requires
            max_content_size_kb * 1024 <= usize::MAX,
        ensures
            r.max_items == max_items,
            r.limit == max_content_size_kb * 1024,
            r.recognized == 0,
            r.accumulated == 0,
    {
        DocxOcrBudget { max_items, limit: max_content_size_kb * 1024, recognized: 0, accumulated: 0 }
    }

    /// Whether images are read by OCR at all.
    pub fn enabled(&self) -> (r: bool)
        ensures
            r == (self.max_items != 0),
    {
        self.max_items != 0
    }

    /// Whether another image may be read: neither the item limit nor the
    /// byte budget is reached.
    pub fn may_continue(&self) -> (r: bool)
        ensures
            r == (!(self.max_items > 0 && self.recognized >= self.max_items) && !(self.limit > 0
                && self.accumulated >= self.limit)),
    {
        let items_reached = self.max_items > 0 && self.recognized >= self.max_items as usize;
        let bytes_reached = self.limit > 0 && self.accumulated >= self.limit;
        !items_reached && !bytes_reached
    }

    /// Counts the OCR text of an image, unless it is blank; tells whether
    /// it was counted.
    pub fn record(&mut self, ocr_text: &str) -> (r: bool)
        requires
            old(self).accumulated + crate::doc_plan::utf8_len(ocr_text@) <= usize::MAX,
            old(self).recognized < usize::MAX,
        ensures
            r == (trim(ocr_text@).len() > 0),
            final(self).max_items == old(self).max_items,
            final(self).limit == old(self).limit,
            r ==> final(self).recognized == old(self).recognized + 1 && final(self).accumulated
                == old(self).accumulated + crate::doc_plan::utf8_len(ocr_text@),
            !r ==> final(self).recognized == old(self).recognized && final(self).accumulated == old(
                self,
            ).accumulated,
    {
        if trim_str(ocr_text).as_str().unicode_len() == 0 {
            return false;
        }
        self.accumulated = self.accumulated + ocr_text.as_bytes().len();
        self.recognized = self.recognized + 1;
        true
    }
}

/// The text of a DOCX: its paragraphs joined by blank lines; when they
/// give nothing, the converter's Markdown with image placeholders replaced
/// by OCR text when there is any; within the budget.
pub open spec fn docx_text_spec(
    paragraphs: Seq<Seq<char>>,
    base: Seq<char>,
    ocr_entries: Seq<(Seq<char>, Seq<char>)>,
    max_bytes: nat,
) -> Seq<char> {
    let joined = crate::doc_plan::join_sep(paragraphs, "\n\n"@);
    crate::extract_text::truncate_spec(
        if joined.len() > 0 {
            joined
        } else if ocr_entries.len() > 0 {
            crate::extract_text::substitute_ocr_spec(base, ocr_entries)
        } else {
            base
        },
        max_bytes,
    )
}

/// The text of a DOCX (see `docx_text_spec`); `ocr_entries` are the OCR
/// texts by key, each key once.
pub fn docx_text(
    paragraphs: &Vec<String>,
    base_markdown: &str,
    ocr_entries: &Vec<(String, String)>,
    max_bytes: usize,
) -> (r: String)
    ensures
        r@ == docx_text_spec(paragraphs.deep_view(), base_markdown@, ocr_entries.deep_view(), max_bytes as nat),
{
    let ghost pv = paragraphs.deep_view();
    let mut joined: Vec<char> = Vec::new();
    let mut i: usize = 0;
    while i < paragraphs.len()
        invariant
            pv == paragraphs.deep_view(),
            i <= paragraphs.len(),
            joined@ == crate::doc_plan::join_sep(pv.take(i as int), "\n\n"@),
        decreases paragraphs.len() - i,
    {
        proof {
            assert(pv.take(i + 1).drop_last() =~= pv.take(i as int));
            assert(pv.take(i + 1).last() == paragraphs@[i as int]@);
        }
        if i > 0 {
            extend_str(&mut joined, "\n\n");
        }
        extend_str(&mut joined, paragraphs[i].as_str());
        i = i + 1;
    }
    assert(pv.take(paragraphs.len() as int) =~= pv);
    let text = if joined.len() > 0 {
        string_of(&joined)
    } else if ocr_entries.len() > 0 {
        OmniExtractor::replace_embedded_image_ocr(base_markdown, ocr_entries)
    } else {
        base_markdown.to_owned()
    };
    crate::extract_text::truncate_string(text.as_str(), max_bytes)
}

/// The keys of the pairs, each once, in order of first occurrence.
pub open spec fn distinct_keys(pairs: Seq<(Seq<char>, Seq<char>)>) -> Seq<Seq<char>> {
    crate::strlist::dedup_seq(pairs.map_values(|p: (Seq<char>, Seq<char>)| p.0))
}

/// What a map filled with the pairs in order holds: each key once, in
/// order of first occurrence, with its last value.
pub open spec fn map_entries_spec(pairs: Seq<(Seq<char>, Seq<char>)>) -> Seq<(Seq<char>, Seq<char>)> {
    distinct_keys(pairs).map_values(
        |k: Seq<char>|
            (
                k,
                match lookup_last(pairs, k) {
                    Some(v) => v,
                    None => Seq::<char>::empty(),
                },
            ),
    )
}

/// The entries of a map filled with the pairs in order (see
/// `map_entries_spec`); their number is the map's size.
pub fn map_entries(pairs: &Vec<(String, String)>) -> (r: Vec<(String, String)>)
    ensures
        r.deep_view() == map_entries_spec(pairs.deep_view()),
        r@.len() == distinct_keys(pairs.deep_view()).len(),
{
    let mut keys: Vec<String> = Vec::new();
    let mut i: usize = 0;
    while i < pairs.len()
        invariant
            i <= pairs.len(),
            keys.deep_view() == pairs.deep_view().take(i as int).map_values(
                |p: (Seq<char>, Seq<char>)| p.0,
            ),
        decreases pairs.len() - i,
    {
        let ghost before = keys.deep_view();
        keys.push(pairs[i].0.clone());
        assert(keys.deep_view() =~= before.push(pairs@[i as int].0@));
        assert(pairs.deep_view().take(i + 1).map_values(|p: (Seq<char>, Seq<char>)| p.0) =~= before.push(
            pairs@[i as int].0@,
        ));
        i = i + 1;
    }
    assert(pairs.deep_view().take(pairs.len() as int) =~= pairs.deep_view());
    let uniq = crate::strlist::dedup_keep_first(&keys);
    let ghost uv = uniq.deep_view();
    let mut out: Vec<(String, String)> = Vec::new();
    let mut j: usize = 0;
    while j < uniq.len()
        invariant
            uv == uniq.deep_view(),
            uv == distinct_keys(pairs.deep_view()),
            j <= uniq.len(),
            out.deep_view() == map_entries_spec(pairs.deep_view()).take(j as int),
        decreases uniq.len() - j,
    {
        let v = match lookup_last_exec(pairs, uniq[j].as_str()) {
            Some(v) => v,
            None => String::new(),
        };
        let ghost before = out.deep_view();
        let k = uniq[j].clone();
        assert(k@ == uv[j as int]);
        let ghost entry = (k@, v@);
        out.push((k, v));
        proof {
            let m = map_entries_spec(pairs.deep_view());
            assert(out.deep_view() =~= before.push(entry));
            assert(m[j as int] == entry);
            assert(m.take(j + 1) =~= m.take(j as int).push(m[j as int]));
        }
        j = j + 1;
    }
    out
}

} // verus!
