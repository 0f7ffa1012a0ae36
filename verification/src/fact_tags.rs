//! Fact tags: the tags a file gets from its metadata (album, genre, camera,
//! software, organization) and from facts already established about it
//! (source, workflow state, security level, quality grade, language).
//!
//! The metadata is read from the JSON object of an extraction as a
//! `MetaValue`: its sub-objects `exiftool`, `audio`, `document`, `image`,
//! `video` and `metadata` (when they are objects), then the top level.
use vstd::prelude::*;
use crate::hashing::{content_hash8, content_hash8_spec};
use crate::slug::{slug_chars, slug_spec};
use crate::tag_identity::{resolve_code_spec, resolve_controlled_tag_code, TagRegistry};
use crate::taxonomy::{eq_ignore_ascii_case, eq_ignore_ascii_case_exec};
use crate::text::{chars_eq, chars_of, extend_str, string_of, trim, trim_chars, occurs_at};

verus! {

/// A JSON value as fact-tag extraction reads it: text, an object (its
/// entries in order), or anything else.
pub enum MetaValue {
    Text(String),
    Object(Vec<(String, MetaValue)>),
    Other,
}

/// A fact tag: its code and display name, produced by the `metadata` engine.
pub struct FactTag {
    pub code: String,
    pub name: String,
    pub engine: Option<String>,
    pub source: Option<String>,
}

/// What fact tags are extracted from: the metadata and the facts already
/// established (display names; the quality grade as its label).
pub struct FactTagContext {
    pub metadata: MetaValue,
    pub file_source: Option<String>,
    pub workflow_state: Option<String>,
    pub security_level: Option<String>,
    pub quality_grade: Option<String>,
    pub language_label: Option<String>,
}

/// The fact-tag extractor.
pub struct OmniFactTagExtractor;

/// The value of the first entry with key `key`.
pub open spec fn entry_get(es: Seq<(String, MetaValue)>, key: Seq<char>) -> Option<MetaValue>
    decreases es.len(),
{
    if es.len() == 0 {
        None
    } else if es[0].0@ == key {
        Some(es[0].1)
    } else {
        entry_get(es.drop_first(), key)
    }
}

/// A text value, trimmed, when it is neither blank nor `0`.
pub open spec fn usable_text(v: MetaValue) -> Option<Seq<char>> {
    match v {
        MetaValue::Text(s) => {
            let t = trim(s@);
            if t.len() > 0 && t != "0"@ {
                Some(t)
            } else {
                None
            }
        },
        _ => None,
    }
}

/// The first usable text whose key equals `key` up to ASCII case.
pub open spec fn scan_key_ci(es: Seq<(String, MetaValue)>, key: Seq<char>) -> Option<Seq<char>>
    decreases es.len(),
{
    if es.len() == 0 {
        None
    } else if eq_ignore_ascii_case(es[0].0@, key) && usable_text(es[0].1) is Some {
        usable_text(es[0].1)
    } else {
        scan_key_ci(es.drop_first(), key)
    }
}

/// The text of a field: the exact key first, else any key equal up to ASCII
/// case, in entry order.
pub open spec fn get_str_spec(es: Seq<(String, MetaValue)>, key: Seq<char>) -> Option<Seq<char>> {
    match entry_get(es, key) {
        Some(v) => match usable_text(v) {
            Some(t) => Some(t),
            None => scan_key_ci(es, key),
        },
        None => scan_key_ci(es, key),
    }
}

/// The keys of the metadata sub-objects read, in order.
pub open spec fn subtree_keys() -> Seq<Seq<char>> {
    seq!["exiftool"@, "audio"@, "document"@, "image"@, "video"@, "metadata"@]
}

/// The sub-objects of the metadata under the given keys, in order.
pub open spec fn subtree_scopes(m: MetaValue, keys: Seq<Seq<char>>) -> Seq<Seq<(String, MetaValue)>>
    decreases keys.len(),
{
    if keys.len() == 0 {
        Seq::empty()
    } else {
        let prev = subtree_scopes(m, keys.drop_last());
        match m {
            MetaValue::Object(es) => match entry_get(es@, keys.last()) {
                Some(MetaValue::Object(sub)) => prev.push(sub@),
                _ => prev,
            },
            _ => prev,
        }
    }
}

/// The objects fields are read from: the sub-objects, then the top level.
pub open spec fn scopes_spec(m: MetaValue) -> Seq<Seq<(String, MetaValue)>> {
    let subs = subtree_scopes(m, subtree_keys());
    match m {
        MetaValue::Object(es) => subs.push(es@),
        _ => subs,
    }
}

fn is_key(k: &String, key: &str) -> (r: bool)
    ensures
        r == (k@ == key@),
{
    chars_eq(&chars_of(k.as_str()), &chars_of(key))
}

fn usable_text_exec(v: &MetaValue) -> (r: Option<String>)
    ensures
        r.deep_view() == usable_text(*v),
{
    match v {
        MetaValue::Text(s) => {
            let t = trim_chars(&chars_of(s.as_str()));
            if t.len() > 0 && !chars_eq(&t, &chars_of("0")) {
                Some(string_of(&t))
            } else {
                None
            }
        },
        _ => None,
    }
}

/// The value of the first entry with the key.
fn entry_get_exec<'a>(es: &'a Vec<(String, MetaValue)>, key: &str) -> (r: Option<&'a MetaValue>)
    ensures
        match r {
            Some(v) => entry_get(es@, key@) == Some(*v),
            None => entry_get(es@, key@) is None,
        },
{
    let mut i: usize = 0;
    assert(es@.skip(0) =~= es@);
    while i < es.len()
        invariant
            i <= es@.len(),
            entry_get(es@, key@) == entry_get(es@.skip(i as int), key@),
        decreases es.len() - i,
    {
        assert(es@.skip(i as int).drop_first() =~= es@.skip(i + 1));
        assert(es@.skip(i as int)[0] == es@[i as int]);
        if is_key(&es[i].0, key) {
            return Some(&es[i].1);
        }
        i = i + 1;
    }
    assert(es@.skip(i as int) =~= Seq::<(String, MetaValue)>::empty());
    None
}

/// The text of a field (see `get_str_spec`).
pub fn get_str(es: &Vec<(String, MetaValue)>, key: &str) -> (r: Option<String>)
    ensures
        r.deep_view() == get_str_spec(es@, key@),
{
    if let Some(v) = entry_get_exec(es, key) {
        if let Some(t) = usable_text_exec(v) {
            return Some(t);
        }
    }
    let kc = chars_of(key);
    let mut i: usize = 0;
    assert(es@.skip(0) =~= es@);
    while i < es.len()
        invariant
            i <= es@.len(),
            kc@ == key@,
            get_str_spec(es@, key@) == scan_key_ci(es@, key@),
            scan_key_ci(es@, key@) == scan_key_ci(es@.skip(i as int), key@),
        decreases es.len() - i,
    {
        assert(es@.skip(i as int).drop_first() =~= es@.skip(i + 1));
        assert(es@.skip(i as int)[0] == es@[i as int]);
        if eq_ignore_ascii_case_exec(&chars_of(es[i].0.as_str()), &kc) {
            if let Some(t) = usable_text_exec(&es[i].1) {
                return Some(t);
            }
        }
        i = i + 1;
    }
    assert(es@.skip(i as int) =~= Seq::<(String, MetaValue)>::empty());
    None
}

/// The objects fields are read from (see `scopes_spec`).
pub fn metadata_scopes(m: &MetaValue) -> (r: Vec<&Vec<(String, MetaValue)>>)
    ensures
        r@.map_values(|e: &Vec<(String, MetaValue)>| e@) == scopes_spec(*m),
{
    let keys: [&str; 6] = ["exiftool", "audio", "document", "image", "video", "metadata"];
    let mut out: Vec<&Vec<(String, MetaValue)>> = Vec::new();
    let mut i: usize = 0;
    proof {
        reveal_strlit("exiftool");
    }
    assert(subtree_scopes(*m, subtree_keys().take(0)) =~= Seq::<Seq<(String, MetaValue)>>::empty());
    while i < 6
        invariant
            i <= 6,
            keys@ == seq!["exiftool", "audio", "document", "image", "video", "metadata"],
            out@.map_values(|e: &Vec<(String, MetaValue)>| e@) == subtree_scopes(*m, subtree_keys().take(i as int)),
        decreases 6 - i,
    {
        let ghost old_out = out@;
        proof {
            assert(subtree_keys().take(i + 1).drop_last() =~= subtree_keys().take(i as int));
            assert(subtree_keys().take(i + 1).last() == keys@[i as int]@);
        }
        match m {
            MetaValue::Object(es) => match entry_get_exec(es, keys[i]) {
                Some(MetaValue::Object(sub)) => {
                    out.push(sub);
                    assert(out@.map_values(|e: &Vec<(String, MetaValue)>| e@) =~= old_out.map_values(|e: &Vec<(String, MetaValue)>| e@).push(sub@));
                },
                _ => {},
            },
            _ => {},
        }
        i = i + 1;
    }
    assert(subtree_keys().take(6) =~= subtree_keys());
    let ghost before = out@;
    match m {
        MetaValue::Object(es) => {
            out.push(es);
            assert(out@.map_values(|e: &Vec<(String, MetaValue)>| e@) =~= before.map_values(|e: &Vec<(String, MetaValue)>| e@).push(es@));
        },
        _ => {},
    }
    out
}

/// Whether a character has the Unicode `Alphabetic` property, as
/// `char::is_alphabetic` tells.
pub uninterp spec fn unicode_alphabetic(c: char) -> bool;

/// Calls `char::is_alphabetic`; the answer is named `unicode_alphabetic`.
#[verifier::external_body]
fn char_is_alphabetic(c: char) -> (r: bool)
    ensures
        r == unicode_alphabetic(c),
{
    c.is_alphabetic()
}

/// The first position at or after `i` where `p` occurs in `v`.
pub open spec fn find_from(v: Seq<char>, p: Seq<char>, i: int) -> Option<int>
    decreases v.len() + 1 - i,
{
    if i < 0 || i + p.len() > v.len() {
        None
    } else if occurs_at(v, p, i) {
        Some(i)
    } else {
        find_from(v, p, i + 1)
    }
}

pub fn find_exec(v: &Vec<char>, p: &str) -> (r: Option<usize>)
    ensures
        match r {
            Some(i) => find_from(v@, p@, 0) == Some(i as int),
            None => find_from(v@, p@, 0) is None,
        },
{
    let pc = chars_of(p);
    if pc.len() > v.len() {
        return None;
    }
    let mut i: usize = 0;
    while i <= v.len() - pc.len()
        invariant
            pc@ == p@,
            pc@.len() <= v@.len(),
            v@.len() <= usize::MAX,
            i <= v@.len() - pc@.len() + 1,
            find_from(v@, p@, 0) == find_from(v@, p@, i as int),
        decreases v.len() - pc.len() + 1 - i,
    {
        let mut j: usize = 0;
        let mut ok = true;
        while j < pc.len()
            invariant
                pc@.len() <= v@.len(),
                v@.len() <= usize::MAX,
                i + pc@.len() <= v@.len(),
                j <= pc@.len(),
                ok == (forall|k: int| 0 <= k < j ==> pc@[k] == v@[i + k]),
            decreases pc.len() - j,
        {
            if pc[j] != v[i + j] {
                ok = false;
            }
            j = j + 1;
        }
        if ok {
            assert(v@.subrange(i as int, i + pc@.len()) =~= pc@);
            return Some(i);
        }
        proof {
            if occurs_at(v@, pc@, i as int) {
                assert forall|k: int| 0 <= k < pc@.len() implies pc@[k] == v@[i + k] by {
                    assert(v@.subrange(i as int, i + pc@.len())[k] == v@[i + k]);
                }
            }
        }
        i = i + 1;
    }
    None
}

/// The character at `i` is part of a trailing version: a digit, a dot, or a
/// `v`/`V` directly followed by a digit.
pub open spec fn version_char(v: Seq<char>, i: int) -> bool {
    let c = v[i];
    ||| ('0' <= c && c <= '9')
    ||| c == '.'
    ||| ((c == 'v' || c == 'V') && i + 1 < v.len() && '0' <= v[i + 1] && v[i + 1] <= '9')
}

/// Where a trailing version that ends at `i` starts.
pub open spec fn version_start(v: Seq<char>, i: int) -> int
    decreases i,
{
    if i > 0 && version_char(v, i - 1) {
        version_start(v, i - 1)
    } else {
        i
    }
}

/// `s` cut before the first ` (`.
pub open spec fn cut_remark(s: Seq<char>) -> Seq<char> {
    match find_from(s, " ("@, 0) {
        Some(idx) => s.take(idx),
        None => s,
    }
}

/// Some character before `i` is alphabetic.
pub open spec fn has_alpha_before(v: Seq<char>, i: int) -> bool {
    exists|k: int| 0 <= k < i && unicode_alphabetic(#[trigger] v[k])
}

/// `s` without its trailing version number, when a letter stays before it.
pub open spec fn cut_version(s: Seq<char>) -> Seq<char> {
    let i = version_start(s, s.len() as int);
    if i < s.len() && i > 0 && has_alpha_before(s, i) {
        s.take(i)
    } else {
        s
    }
}

/// The name of a creation tool: trimmed, cut before ` (`, without a
/// trailing version number when a letter stays before it, trimmed again.
pub open spec fn normalize_software_spec(raw: Seq<char>) -> Seq<char> {
    let s = trim(raw);
    if s.len() == 0 {
        s
    } else {
        trim(cut_version(cut_remark(s)))
    }
}

/// The slug of a fact value: `slug_spec`, or the content hash of the
/// trimmed value when the slug is empty (a name without ASCII letters or
/// digits).
pub open spec fn fact_slug_spec(raw: Seq<char>) -> Seq<char> {
    let sl = slug_spec(raw);
    if sl.len() == 0 {
        content_hash8_spec(trim(raw))
    } else {
        sl
    }
}

/// The open-set code of an entity of a dimension:
/// `_ext.{prefix}.{slug}.{hash8}` of the trimmed name.
pub open spec fn fact_ext_code_spec(prefix: Seq<char>, name: Seq<char>) -> Seq<char> {
    let clean = trim(name);
    "_ext."@ + prefix + "."@ + fact_slug_spec(clean) + "."@ + content_hash8_spec(clean)
}

impl OmniFactTagExtractor {
    /// The name of a creation tool without its version and remarks, e.g.
    /// `Adobe Photoshop 25.0 (Windows)` gives `Adobe Photoshop`.
    pub fn normalize_software_name(raw: &str) -> (r: String)
        ensures
            r@ == normalize_software_spec(raw@),
    {
        let s = trim_chars(&chars_of(raw));
        if s.len() == 0 {
            return string_of(&s);
        }
        let s1: Vec<char> = match find_exec(&s, " (") {
            Some(idx) => {
                let mut t: Vec<char> = Vec::new();
                let mut k: usize = 0;
                proof {
                    if find_from(s@, " ("@, 0) == Some(idx as int) {
                        lemma_find_from_bound(s@, " ("@, 0);
                    }
                }
                while k < idx
                    invariant
                        idx <= s@.len(),
                        k <= idx,
                        t@ == s@.take(k as int),
                    decreases idx - k,
                {
                    t.push(s[k]);
                    assert(t@ =~= s@.take(k + 1));
                    k = k + 1;
                }
                t
            },
            None => s.clone(),
        };
        assert(s1@ == (match find_from(s@, " ("@, 0) {
            Some(idx) => s@.take(idx),
            None => s@,
        }));
        let n = s1.len();
        let mut i: usize = n;
        while i > 0 && (('0' <= s1[i - 1] && s1[i - 1] <= '9') || s1[i - 1] == '.' || ((s1[i - 1] == 'v'
            || s1[i - 1] == 'V') && i < n && '0' <= s1[i] && s1[i] <= '9'))
            invariant
                n == s1@.len(),
                i <= n,
                version_start(s1@, n as int) == version_start(s1@, i as int),
            decreases i,
        {
            assert(version_char(s1@, i - 1));
            i = i - 1;
        }
        assert(!(i > 0 && version_char(s1@, i - 1)));
        assert(version_start(s1@, n as int) == i);
        let mut has_letter = false;
        if i < n && i > 0 {
            let mut k: usize = 0;
            while k < i
                invariant
                    i <= n,
                    n == s1@.len(),
                    k <= i,
                    has_letter == has_alpha_before(s1@, k as int),
                decreases i - k,
            {
                if char_is_alphabetic(s1[k]) {
                    has_letter = true;
                }
                proof {
                    if has_alpha_before(s1@, k + 1) && !has_alpha_before(s1@, k as int) {
                        let x = choose|x: int| 0 <= x < k + 1 && unicode_alphabetic(#[trigger] s1@[x]);
                        assert(x == k);
                    }
                }
                k = k + 1;
            }
        }
        let mut cut: Vec<char> = Vec::new();
        let end = if i < n && i > 0 && has_letter {
            i
        } else {
            n
        };
        let mut k: usize = 0;
        while k < end
            invariant
                end <= n,
                n == s1@.len(),
                k <= end,
                cut@ == s1@.take(k as int),
            decreases end - k,
        {
            cut.push(s1[k]);
            assert(cut@ =~= s1@.take(k + 1));
            k = k + 1;
        }
        if end == n {
            assert(s1@.take(n as int) =~= s1@);
        }
        proof {
            assert(s1@ == cut_remark(s@));
            assert(cut@ == cut_version(s1@));
            assert(s@ == trim(raw@));
        }
        string_of(&trim_chars(&cut))
    }

    /// The slug of a fact value (see `fact_slug_spec`).
    pub fn slug(raw: &str) -> (r: String)
        ensures
            r@ == fact_slug_spec(raw@),
    {
        let sl = slug_chars(&chars_of(raw));
        if sl.len() == 0 {
            content_hash8(string_of(&trim_chars(&chars_of(raw))).as_str())
        } else {
            string_of(&sl)
        }
    }

    /// The open-set code of an entity (see `fact_ext_code_spec`).
    pub fn ext_code(prefix: &str, name: &str) -> (r: String)
        ensures
            r@ == fact_ext_code_spec(prefix@, name@),
    {
        let clean = string_of(&trim_chars(&chars_of(name)));
        let mut v = chars_of("_ext.");
        extend_str(&mut v, prefix);
        extend_str(&mut v, ".");
        extend_str(&mut v, Self::slug(clean.as_str()).as_str());
        extend_str(&mut v, ".");
        extend_str(&mut v, content_hash8(clean.as_str()).as_str());
        string_of(&v)
    }
}

pub proof fn lemma_find_from_bound(v: Seq<char>, p: Seq<char>, i: int)
    ensures
        find_from(v, p, i) matches Some(x) ==> i <= x && x + p.len() <= v.len(),
    decreases v.len() + 1 - i,
{
    if !(i < 0 || i + p.len() > v.len()) && !occurs_at(v, p, i) {
        lemma_find_from_bound(v, p, i + 1);
    }
}

/// A metadata dimension and the fields it reads.
#[derive(Clone, Copy)]
pub enum Dimension {
    /// `Album`, `album`: the album.
    Album,
    /// `Genre`, `genre`: the music genre (a controlled tag when known).
    Genre,
    /// `Make`, `make`: the camera brand.
    Make,
    /// `Model`, `model`: the equipment model (two characters at least).
    Model,
    /// `Software`, `software`, `CreatorTool`, `creator_tool`: the creation
    /// tool (normalized; a controlled tag when known).
    Software,
    /// `Company`, `company`, `Organization`, `organization`, `Producer`:
    /// the producing organization (two characters at least).
    Organization,
}

/// The fields a dimension reads, in order.
pub open spec fn dim_keys(d: Dimension) -> Seq<Seq<char>> {
    match d {
        Dimension::Album => seq!["Album"@, "album"@],
        Dimension::Genre => seq!["Genre"@, "genre"@],
        Dimension::Make => seq!["Make"@, "make"@],
        Dimension::Model => seq!["Model"@, "model"@],
        Dimension::Software => seq!["Software"@, "software"@, "CreatorTool"@, "creator_tool"@],
        Dimension::Organization => seq!["Company"@, "company"@, "Organization"@, "organization"@, "Producer"@],
    }
}

/// The controlled code of a value, else its open-set code under `prefix`.
pub open spec fn controlled_or_ext(
    dynamic: Map<Seq<char>, Seq<char>>,
    prefix: Seq<char>,
    v: Seq<char>,
) -> Seq<char> {
    match resolve_code_spec(dynamic, v) {
        Some(c) => c,
        None => fact_ext_code_spec(prefix, v),
    }
}

/// The (name, code) a field value of a dimension proposes, if any.
pub open spec fn candidate(d: Dimension, dynamic: Map<Seq<char>, Seq<char>>, v: Seq<char>) -> Option<
    (Seq<char>, Seq<char>),
> {
    match d {
        Dimension::Album => Some((v, fact_ext_code_spec("album"@, v))),
        Dimension::Genre => Some((v, controlled_or_ext(dynamic, "music_genre"@, v))),
        Dimension::Make => Some((v, fact_ext_code_spec("camera_brand"@, v))),
        Dimension::Model => if v.len() < 2 {
            None
        } else {
            Some((v, fact_ext_code_spec("camera_model"@, v)))
        },
        Dimension::Software => {
            let n = normalize_software_spec(v);
            if n.len() == 0 {
                None
            } else {
                Some((n, controlled_or_ext(dynamic, "creation_tool"@, n)))
            }
        },
        Dimension::Organization => if v.len() < 2 {
            None
        } else {
            Some((v, fact_ext_code_spec("organization"@, v)))
        },
    }
}

/// The candidates of the given fields of an object, in order.
pub open spec fn key_candidates(
    es: Seq<(String, MetaValue)>,
    keys: Seq<Seq<char>>,
    d: Dimension,
    dynamic: Map<Seq<char>, Seq<char>>,
) -> Seq<(Seq<char>, Seq<char>)>
    decreases keys.len(),
{
    if keys.len() == 0 {
        Seq::empty()
    } else {
        key_candidates(es, keys.drop_last(), d, dynamic) + field_candidates(es, keys.last(), d, dynamic)
    }
}

/// The candidate of one field of an object, if any.
pub open spec fn field_candidates(
    es: Seq<(String, MetaValue)>,
    key: Seq<char>,
    d: Dimension,
    dynamic: Map<Seq<char>, Seq<char>>,
) -> Seq<(Seq<char>, Seq<char>)> {
    match get_str_spec(es, key) {
        Some(v) => match candidate(d, dynamic, v) {
            Some(c) => seq![c],
            None => Seq::empty(),
        },
        None => Seq::empty(),
    }
}

/// The candidates of the given dimensions of an object, in order.
pub open spec fn dims_candidates(
    es: Seq<(String, MetaValue)>,
    dims: Seq<Dimension>,
    dynamic: Map<Seq<char>, Seq<char>>,
) -> Seq<(Seq<char>, Seq<char>)>
    decreases dims.len(),
{
    if dims.len() == 0 {
        Seq::empty()
    } else {
        dims_candidates(es, dims.drop_last(), dynamic) + key_candidates(
            es,
            dim_keys(dims.last()),
            dims.last(),
            dynamic,
        )
    }
}

/// The candidates of the given dimensions of each object, object by object.
pub open spec fn scopes_candidates(
    scopes: Seq<Seq<(String, MetaValue)>>,
    dims: Seq<Dimension>,
    dynamic: Map<Seq<char>, Seq<char>>,
) -> Seq<(Seq<char>, Seq<char>)>
    decreases scopes.len(),
{
    if scopes.len() == 0 {
        Seq::empty()
    } else {
        scopes_candidates(scopes.drop_last(), dims, dynamic) + dims_candidates(scopes.last(), dims, dynamic)
    }
}

/// The candidate of an established fact: its value, coded `{code}.{slug}`.
pub open spec fn fact_candidate(value: Option<Seq<char>>, code: Seq<char>) -> Seq<(Seq<char>, Seq<char>)> {
    match value {
        Some(v) => seq![(v, code + "."@ + fact_slug_spec(v))],
        None => Seq::empty(),
    }
}

/// The candidate of a quality grade.
pub open spec fn grade_candidate(grade: Option<Seq<char>>) -> Seq<(Seq<char>, Seq<char>)> {
    match grade {
        Some(g) => seq![(g, fact_ext_code_spec("file_quality"@, g))],
        None => Seq::empty(),
    }
}

/// Every candidate, in order: the audio dimensions, then the equipment and
/// tool dimensions, then the document dimension (each object by object),
/// then the established facts.
pub open spec fn all_candidates(ctx: FactTagContext, dynamic: Map<Seq<char>, Seq<char>>) -> Seq<
    (Seq<char>, Seq<char>),
> {
    let sc = scopes_spec(ctx.metadata);
    scopes_candidates(sc, seq![Dimension::Album, Dimension::Genre], dynamic) + scopes_candidates(
        sc,
        seq![Dimension::Make, Dimension::Model, Dimension::Software],
        dynamic,
    ) + scopes_candidates(sc, seq![Dimension::Organization], dynamic) + fact_candidate(
        ctx.file_source.deep_view(),
        "dim.file_source"@,
    ) + fact_candidate(ctx.workflow_state.deep_view(), "dim.workflow_state"@) + fact_candidate(
        ctx.security_level.deep_view(),
        "dim.security_level"@,
    ) + grade_candidate(ctx.quality_grade.deep_view()) + fact_candidate(
        ctx.language_label.deep_view(),
        "dim.language"@,
    )
}

/// The names of (name, code) pairs.
pub open spec fn pair_names(s: Seq<(Seq<char>, Seq<char>)>) -> Seq<Seq<char>> {
    s.map_values(|p: (Seq<char>, Seq<char>)| p.0)
}

/// One candidate offered: its trimmed name is added unless blank or already
/// present (an earlier fact is never replaced).
pub open spec fn tag_step(acc: Seq<(Seq<char>, Seq<char>)>, c: (Seq<char>, Seq<char>)) -> Seq<
    (Seq<char>, Seq<char>),
> {
    let clean = trim(c.0);
    if clean.len() == 0 || pair_names(acc).contains(clean) {
        acc
    } else {
        acc.push((clean, c.1))
    }
}

/// The candidates offered in order.
pub open spec fn push_tags(acc: Seq<(Seq<char>, Seq<char>)>, cands: Seq<(Seq<char>, Seq<char>)>) -> Seq<
    (Seq<char>, Seq<char>),
>
    decreases cands.len(),
{
    if cands.len() == 0 {
        acc
    } else {
        tag_step(push_tags(acc, cands.drop_last()), cands.last())
    }
}

pub proof fn lemma_push_tags_append(
    acc: Seq<(Seq<char>, Seq<char>)>,
    a: Seq<(Seq<char>, Seq<char>)>,
    b: Seq<(Seq<char>, Seq<char>)>,
)
    ensures
        push_tags(acc, a + b) == push_tags(push_tags(acc, a), b),
    decreases b.len(),
{
    if b.len() == 0 {
        assert(a + b =~= a);
    } else {
        assert((a + b).drop_last() =~= a + b.drop_last());
        assert((a + b).last() == b.last());
        lemma_push_tags_append(acc, a, b.drop_last());
    }
}

/// The (name, code) pairs of fact tags.
pub open spec fn tag_pairs(v: Seq<FactTag>) -> Seq<(Seq<char>, Seq<char>)> {
    v.map_values(|t: FactTag| (t.name@, t.code@))
}

/// Every tag comes from the `metadata` engine.
pub open spec fn from_metadata_engine(v: Seq<FactTag>) -> bool {
    forall|i: int|
        0 <= i < v.len() ==> (#[trigger] v[i]).engine.deep_view() == Some("metadata"@) && v[i].source.deep_view()
            == Some("metadata"@)
}

fn push_tag(out: &mut Vec<FactTag>, name: &str, code: String)
    requires
        from_metadata_engine(old(out)@),
    ensures
        tag_pairs(final(out)@) == tag_step(tag_pairs(old(out)@), (name@, code@)),
        from_metadata_engine(final(out)@),
{
    let clean = string_of(&trim_chars(&chars_of(name)));
    if chars_of(clean.as_str()).len() == 0 {
        return;
    }
    let mut i: usize = 0;
    while i < out.len()
        invariant
            out@ == old(out)@,
            clean@ == trim(name@),
            from_metadata_engine(out@),
            i <= out@.len(),
            forall|k: int| 0 <= k < i ==> pair_names(tag_pairs(out@))[k] != clean@,
        decreases out.len() - i,
    {
        if out[i].name == clean {
            assert(pair_names(tag_pairs(out@))[i as int] == clean@);
            assert(pair_names(tag_pairs(out@)).contains(clean@));
            return;
        }
        i = i + 1;
    }
    proof {
        if pair_names(tag_pairs(out@)).contains(clean@) {
            let k = choose|k: int| 0 <= k < pair_names(tag_pairs(out@)).len() && pair_names(tag_pairs(out@))[k] == clean@;
        }
    }
    let ghost old_v = out@;
    out.push(FactTag { code, name: clean, engine: Some("metadata".to_owned()), source: Some("metadata".to_owned()) });
    proof {
        assert(tag_pairs(out@) =~= tag_pairs(old_v).push((clean@, code@)));
    }
}

fn dim_key_list(d: Dimension) -> (r: Vec<&'static str>)
    ensures
        r@.map_values(|k: &str| k@) == dim_keys(d),
{
    let mut r: Vec<&'static str> = Vec::new();
    match d {
        Dimension::Album => {
            r.push("Album");
            r.push("album");
        },
        Dimension::Genre => {
            r.push("Genre");
            r.push("genre");
        },
        Dimension::Make => {
            r.push("Make");
            r.push("make");
        },
        Dimension::Model => {
            r.push("Model");
            r.push("model");
        },
        Dimension::Software => {
            r.push("Software");
            r.push("software");
            r.push("CreatorTool");
            r.push("creator_tool");
        },
        Dimension::Organization => {
            r.push("Company");
            r.push("company");
            r.push("Organization");
            r.push("organization");
            r.push("Producer");
        },
    }
    assert(r@.map_values(|k: &str| k@) =~= dim_keys(d));
    r
}

fn controlled_or_ext_exec(registry: &TagRegistry, prefix: &str, v: &str) -> (r: String)
    requires
        registry.wf(),
    ensures
        r@ == controlled_or_ext(registry.dynamic_aliases(), prefix@, v@),
{
    match resolve_controlled_tag_code(registry, v) {
        Some(c) => c.to_owned(),
        None => OmniFactTagExtractor::ext_code(prefix, v),
    }
}

fn candidate_exec(d: Dimension, registry: &TagRegistry, v: &String) -> (r: Option<(String, String)>)
    requires
        registry.wf(),
    ensures
        match r {
            Some((n, c)) => candidate(d, registry.dynamic_aliases(), v@) == Some((n@, c@)),
            None => candidate(d, registry.dynamic_aliases(), v@) is None,
        },
{
    match d {
        Dimension::Album => Some((v.clone(), OmniFactTagExtractor::ext_code("album", v.as_str()))),
        Dimension::Genre => Some((v.clone(), controlled_or_ext_exec(registry, "music_genre", v.as_str()))),
        Dimension::Make => Some((v.clone(), OmniFactTagExtractor::ext_code("camera_brand", v.as_str()))),
        Dimension::Model => if chars_of(v.as_str()).len() < 2 {
            None
        } else {
            Some((v.clone(), OmniFactTagExtractor::ext_code("camera_model", v.as_str())))
        },
        Dimension::Software => {
            let n = OmniFactTagExtractor::normalize_software_name(v.as_str());
            if chars_of(n.as_str()).len() == 0 {
                None
            } else {
                let c = controlled_or_ext_exec(registry, "creation_tool", n.as_str());
                Some((n, c))
            }
        },
        Dimension::Organization => if chars_of(v.as_str()).len() < 2 {
            None
        } else {
            Some((v.clone(), OmniFactTagExtractor::ext_code("organization", v.as_str())))
        },
    }
}

fn offer_field(out: &mut Vec<FactTag>, es: &Vec<(String, MetaValue)>, key: &str, d: Dimension, registry: &TagRegistry)
    requires
        registry.wf(),
        from_metadata_engine(old(out)@),
    ensures
        tag_pairs(final(out)@) == push_tags(
            tag_pairs(old(out)@),
            field_candidates(es@, key@, d, registry.dynamic_aliases()),
        ),
        from_metadata_engine(final(out)@),
{
    match get_str(es, key) {
        Some(v) => match candidate_exec(d, registry, &v) {
            Some((name, code)) => {
                let ghost before = tag_pairs(out@);
                push_tag(out, name.as_str(), code);
                proof {
                    let one = seq![(name@, code@)];
                    assert(one.drop_last() =~= Seq::<(Seq<char>, Seq<char>)>::empty());
                    assert(one.last() == (name@, code@));
                    assert(push_tags(before, one) == tag_step(push_tags(before, one.drop_last()), one.last()));
                }
            },
            None => {
                assert(field_candidates(es@, key@, d, registry.dynamic_aliases()) =~= Seq::<(Seq<char>, Seq<char>)>::empty());
            },
        },
        None => {
            assert(field_candidates(es@, key@, d, registry.dynamic_aliases()) =~= Seq::<(Seq<char>, Seq<char>)>::empty());
        },
    }
}

fn add_dimension(out: &mut Vec<FactTag>, es: &Vec<(String, MetaValue)>, d: Dimension, registry: &TagRegistry)
    requires
        registry.wf(),
        from_metadata_engine(old(out)@),
    ensures
        tag_pairs(final(out)@) == push_tags(
            tag_pairs(old(out)@),
            key_candidates(es@, dim_keys(d), d, registry.dynamic_aliases()),
        ),
        from_metadata_engine(final(out)@),
{
    let keys = dim_key_list(d);
    let ghost kv = dim_keys(d);
    let ghost dyn_map = registry.dynamic_aliases();
    let ghost start = tag_pairs(out@);
    let mut i: usize = 0;
    assert(key_candidates(es@, kv.take(0), d, dyn_map) =~= Seq::<(Seq<char>, Seq<char>)>::empty());
    while i < keys.len()
        invariant
            registry.wf(),
            dyn_map == registry.dynamic_aliases(),
            keys@.map_values(|k: &str| k@) == kv,
            i <= keys@.len(),
            tag_pairs(out@) == push_tags(start, key_candidates(es@, kv.take(i as int), d, dyn_map)),
            from_metadata_engine(out@),
        decreases keys.len() - i,
    {
        let ghost prev = key_candidates(es@, kv.take(i as int), d, dyn_map);
        let ghost mid = tag_pairs(out@);
        offer_field(out, es, keys[i], d, registry);
        proof {
            assert(kv.take(i + 1).drop_last() =~= kv.take(i as int));
            assert(kv.take(i + 1).last() == keys@[i as int]@);
            lemma_push_tags_append(start, prev, field_candidates(es@, keys@[i as int]@, d, dyn_map));
        }
        i = i + 1;
    }
    assert(kv.take(keys.len() as int) =~= kv);
}

fn add_dims(out: &mut Vec<FactTag>, es: &Vec<(String, MetaValue)>, dims: &Vec<Dimension>, registry: &TagRegistry)
    requires
        registry.wf(),
        from_metadata_engine(old(out)@),
    ensures
        tag_pairs(final(out)@) == push_tags(
            tag_pairs(old(out)@),
            dims_candidates(es@, dims@, registry.dynamic_aliases()),
        ),
        from_metadata_engine(final(out)@),
{
    let ghost start = tag_pairs(out@);
    let ghost dyn_map = registry.dynamic_aliases();
    let mut i: usize = 0;
    assert(dims_candidates(es@, dims@.take(0), dyn_map) =~= Seq::<(Seq<char>, Seq<char>)>::empty());
    while i < dims.len()
        invariant
            registry.wf(),
            dyn_map == registry.dynamic_aliases(),
            i <= dims@.len(),
            tag_pairs(out@) == push_tags(start, dims_candidates(es@, dims@.take(i as int), dyn_map)),
            from_metadata_engine(out@),
        decreases dims.len() - i,
    {
        let ghost prev = dims_candidates(es@, dims@.take(i as int), dyn_map);
        add_dimension(out, es, dims[i], registry);
        proof {
            assert(dims@.take(i + 1).drop_last() =~= dims@.take(i as int));
            assert(dims@.take(i + 1).last() == dims@[i as int]);
            lemma_push_tags_append(
                start,
                prev,
                key_candidates(es@, dim_keys(dims@[i as int]), dims@[i as int], dyn_map),
            );
        }
        i = i + 1;
    }
    assert(dims@.take(dims.len() as int) =~= dims@);
}

fn add_scopes(
    out: &mut Vec<FactTag>,
    scopes: &Vec<&Vec<(String, MetaValue)>>,
    dims: &Vec<Dimension>,
    registry: &TagRegistry,
)
    requires
        registry.wf(),
        from_metadata_engine(old(out)@),
    ensures
        tag_pairs(final(out)@) == push_tags(
            tag_pairs(old(out)@),
            scopes_candidates(
                scopes@.map_values(|e: &Vec<(String, MetaValue)>| e@),
                dims@,
                registry.dynamic_aliases(),
            ),
        ),
        from_metadata_engine(final(out)@),
{
    let ghost start = tag_pairs(out@);
    let ghost dyn_map = registry.dynamic_aliases();
    let ghost sv = scopes@.map_values(|e: &Vec<(String, MetaValue)>| e@);
    let mut i: usize = 0;
    assert(scopes_candidates(sv.take(0), dims@, dyn_map) =~= Seq::<(Seq<char>, Seq<char>)>::empty());
    while i < scopes.len()
        invariant
            registry.wf(),
            dyn_map == registry.dynamic_aliases(),
            sv == scopes@.map_values(|e: &Vec<(String, MetaValue)>| e@),
            i <= scopes@.len(),
            tag_pairs(out@) == push_tags(start, scopes_candidates(sv.take(i as int), dims@, dyn_map)),
            from_metadata_engine(out@),
        decreases scopes.len() - i,
    {
        let ghost prev = scopes_candidates(sv.take(i as int), dims@, dyn_map);
        add_dims(out, scopes[i], dims, registry);
        proof {
            assert(sv.take(i + 1).drop_last() =~= sv.take(i as int));
            assert(sv.take(i + 1).last() == scopes@[i as int]@);
            lemma_push_tags_append(start, prev, dims_candidates(scopes@[i as int]@, dims@, dyn_map));
        }
        i = i + 1;
    }
    assert(sv.take(scopes.len() as int) =~= sv);
}

fn add_fact(out: &mut Vec<FactTag>, value: &Option<String>, code: &str)
    requires
        from_metadata_engine(old(out)@),
    ensures
        tag_pairs(final(out)@) == push_tags(tag_pairs(old(out)@), fact_candidate(value.deep_view(), code@)),
        from_metadata_engine(final(out)@),
{
    match value {
        Some(v) => {
            let mut c = chars_of(code);
            extend_str(&mut c, ".");
            extend_str(&mut c, OmniFactTagExtractor::slug(v.as_str()).as_str());
            let full = string_of(&c);
            let ghost before = tag_pairs(out@);
            push_tag(out, v.as_str(), full);
            proof {
                let one = fact_candidate(value.deep_view(), code@);
                assert(one.drop_last() =~= Seq::<(Seq<char>, Seq<char>)>::empty());
                assert(push_tags(before, one) == tag_step(push_tags(before, one.drop_last()), one.last()));
            }
        },
        None => {},
    }
}

fn add_grade(out: &mut Vec<FactTag>, grade: &Option<String>)
    requires
        from_metadata_engine(old(out)@),
    ensures
        tag_pairs(final(out)@) == push_tags(tag_pairs(old(out)@), grade_candidate(grade.deep_view())),
        from_metadata_engine(final(out)@),
{
    match grade {
        Some(g) => {
            let code = OmniFactTagExtractor::ext_code("file_quality", g.as_str());
            let ghost before = tag_pairs(out@);
            push_tag(out, g.as_str(), code);
            proof {
                let one = grade_candidate(grade.deep_view());
                assert(one.drop_last() =~= Seq::<(Seq<char>, Seq<char>)>::empty());
                assert(push_tags(before, one) == tag_step(push_tags(before, one.drop_last()), one.last()));
            }
        },
        None => {},
    }
}

/// Names are trimmed, not blank, and each occurs once.
pub open spec fn clean_unique_names(s: Seq<(Seq<char>, Seq<char>)>) -> bool {
    &&& forall|i: int| 0 <= i < s.len() ==> trim((#[trigger] s[i]).0) == s[i].0 && s[i].0.len() > 0
    &&& forall|i: int, j: int| 0 <= i < j < s.len() ==> (#[trigger] s[i]).0 != (#[trigger] s[j]).0
}

/// Offering candidates keeps names trimmed, non-blank and unique.
pub proof fn lemma_push_tags_clean(acc: Seq<(Seq<char>, Seq<char>)>, cands: Seq<(Seq<char>, Seq<char>)>)
    requires
        clean_unique_names(acc),
    ensures
        clean_unique_names(push_tags(acc, cands)),
    decreases cands.len(),
{
    if cands.len() > 0 {
        lemma_push_tags_clean(acc, cands.drop_last());
        let prev = push_tags(acc, cands.drop_last());
        let c = cands.last();
        let clean = trim(c.0);
        if !(clean.len() == 0 || pair_names(prev).contains(clean)) {
            let next = prev.push((clean, c.1));
            crate::text::lemma_trim_idempotent(c.0);
            assert forall|i: int, j: int| 0 <= i < j < next.len() implies (#[trigger] next[i]).0 != (#[trigger] next[j]).0 by {
                if j == next.len() - 1 {
                    assert(pair_names(prev)[i] == prev[i].0);
                }
            }
        }
    }
}

/// Every code of the (name, code) pairs is non-empty.
pub open spec fn codes_nonempty(s: Seq<(Seq<char>, Seq<char>)>) -> bool {
    forall|i: int| 0 <= i < s.len() ==> (#[trigger] s[i]).1.len() > 0
}

/// Every code the runtime dictionary holds is non-empty.
pub open spec fn dynamic_codes_nonempty(dynamic: Map<Seq<char>, Seq<char>>) -> bool {
    forall|k: Seq<char>| #[trigger] dynamic.contains_key(k) ==> dynamic[k].len() > 0
}

proof fn lemma_concat_nonempty(a: Seq<(Seq<char>, Seq<char>)>, b: Seq<(Seq<char>, Seq<char>)>)
    requires
        codes_nonempty(a),
        codes_nonempty(b),
    ensures
        codes_nonempty(a + b),
{
    assert forall|i: int| 0 <= i < (a + b).len() implies (#[trigger] (a + b)[i]).1.len() > 0 by {
        if i >= a.len() {
            assert((a + b)[i] == b[i - a.len()]);
        }
    }
}

proof fn lemma_candidate_nonempty(d: Dimension, dynamic: Map<Seq<char>, Seq<char>>, v: Seq<char>)
    requires
        dynamic_codes_nonempty(dynamic),
    ensures
        candidate(d, dynamic, v) matches Some(c) ==> c.1.len() > 0,
{
    reveal_strlit("_ext.");
    reveal_strlit("builtin.");
    reveal_strlit("builtin.h_");
}

proof fn lemma_key_candidates_nonempty(
    es: Seq<(String, MetaValue)>,
    keys: Seq<Seq<char>>,
    d: Dimension,
    dynamic: Map<Seq<char>, Seq<char>>,
)
    requires
        dynamic_codes_nonempty(dynamic),
    ensures
        codes_nonempty(key_candidates(es, keys, d, dynamic)),
    decreases keys.len(),
{
    if keys.len() > 0 {
        lemma_key_candidates_nonempty(es, keys.drop_last(), d, dynamic);
        match get_str_spec(es, keys.last()) {
            Some(v) => lemma_candidate_nonempty(d, dynamic, v),
            None => {},
        }
        lemma_concat_nonempty(
            key_candidates(es, keys.drop_last(), d, dynamic),
            field_candidates(es, keys.last(), d, dynamic),
        );
    }
}

proof fn lemma_dims_candidates_nonempty(
    es: Seq<(String, MetaValue)>,
    dims: Seq<Dimension>,
    dynamic: Map<Seq<char>, Seq<char>>,
)
    requires
        dynamic_codes_nonempty(dynamic),
    ensures
        codes_nonempty(dims_candidates(es, dims, dynamic)),
    decreases dims.len(),
{
    if dims.len() > 0 {
        lemma_dims_candidates_nonempty(es, dims.drop_last(), dynamic);
        lemma_key_candidates_nonempty(es, dim_keys(dims.last()), dims.last(), dynamic);
        lemma_concat_nonempty(
            dims_candidates(es, dims.drop_last(), dynamic),
            key_candidates(es, dim_keys(dims.last()), dims.last(), dynamic),
        );
    }
}

proof fn lemma_scopes_candidates_nonempty(
    scopes: Seq<Seq<(String, MetaValue)>>,
    dims: Seq<Dimension>,
    dynamic: Map<Seq<char>, Seq<char>>,
)
    requires
        dynamic_codes_nonempty(dynamic),
    ensures
        codes_nonempty(scopes_candidates(scopes, dims, dynamic)),
    decreases scopes.len(),
{
    if scopes.len() > 0 {
        lemma_scopes_candidates_nonempty(scopes.drop_last(), dims, dynamic);
        lemma_dims_candidates_nonempty(scopes.last(), dims, dynamic);
        lemma_concat_nonempty(
            scopes_candidates(scopes.drop_last(), dims, dynamic),
            dims_candidates(scopes.last(), dims, dynamic),
        );
    }
}

proof fn lemma_push_tags_nonempty(acc: Seq<(Seq<char>, Seq<char>)>, cands: Seq<(Seq<char>, Seq<char>)>)
    requires
        codes_nonempty(acc),
        codes_nonempty(cands),
    ensures
        codes_nonempty(push_tags(acc, cands)),
    decreases cands.len(),
{
    if cands.len() > 0 {
        assert(codes_nonempty(cands.drop_last())) by {
            assert forall|i: int| 0 <= i < cands.drop_last().len() implies (#[trigger] cands.drop_last()[i]).1.len() > 0 by {
                assert(cands.drop_last()[i] == cands[i]);
            }
        }
        lemma_push_tags_nonempty(acc, cands.drop_last());
        let prev = push_tags(acc, cands.drop_last());
        let c = cands.last();
        assert(c.1.len() > 0);
        let clean = trim(c.0);
        if !(clean.len() == 0 || pair_names(prev).contains(clean)) {
            let next = prev.push((clean, c.1));
            assert forall|i: int| 0 <= i < next.len() implies (#[trigger] next[i]).1.len() > 0 by {
                if i < prev.len() {
                    assert(next[i] == prev[i]);
                }
            }
        }
    }
}

/// A fact tag always carries a code: when every code of the runtime
/// dictionary is non-empty, every extracted tag has a non-empty code.
pub proof fn law_fact_tag_codes_nonempty(ctx: FactTagContext, dynamic: Map<Seq<char>, Seq<char>>)
    requires
        dynamic_codes_nonempty(dynamic),
    ensures
        codes_nonempty(push_tags(Seq::empty(), all_candidates(ctx, dynamic))),
{
    reveal_strlit(".");
    reveal_strlit("_ext.");
    let sc = scopes_spec(ctx.metadata);
    lemma_scopes_candidates_nonempty(sc, seq![Dimension::Album, Dimension::Genre], dynamic);
    lemma_scopes_candidates_nonempty(sc, seq![Dimension::Make, Dimension::Model, Dimension::Software], dynamic);
    lemma_scopes_candidates_nonempty(sc, seq![Dimension::Organization], dynamic);
    let a = scopes_candidates(sc, seq![Dimension::Album, Dimension::Genre], dynamic);
    let b = scopes_candidates(sc, seq![Dimension::Make, Dimension::Model, Dimension::Software], dynamic);
    let c = scopes_candidates(sc, seq![Dimension::Organization], dynamic);
    let f1 = fact_candidate(ctx.file_source.deep_view(), "dim.file_source"@);
    let f2 = fact_candidate(ctx.workflow_state.deep_view(), "dim.workflow_state"@);
    let f3 = fact_candidate(ctx.security_level.deep_view(), "dim.security_level"@);
    let g = grade_candidate(ctx.quality_grade.deep_view());
    let f4 = fact_candidate(ctx.language_label.deep_view(), "dim.language"@);
    assert(codes_nonempty(f1));
    assert(codes_nonempty(f2));
    assert(codes_nonempty(f3));
    assert(codes_nonempty(g));
    assert(codes_nonempty(f4));
    lemma_concat_nonempty(a, b);
    lemma_concat_nonempty(a + b, c);
    lemma_concat_nonempty(a + b + c, f1);
    lemma_concat_nonempty(a + b + c + f1, f2);
    lemma_concat_nonempty(a + b + c + f1 + f2, f3);
    lemma_concat_nonempty(a + b + c + f1 + f2 + f3, g);
    lemma_concat_nonempty(a + b + c + f1 + f2 + f3 + g, f4);
    lemma_push_tags_nonempty(Seq::empty(), all_candidates(ctx, dynamic));
}

impl OmniFactTagExtractor {
    /// The fact tags of a file (see `all_candidates`): each candidate in
    /// order, its name trimmed, skipped when blank or when a tag of that
    /// name is already present; all from the `metadata` engine.
    pub fn extract(ctx: &FactTagContext, registry: &TagRegistry) -> (r: Vec<FactTag>)
        requires
            registry.wf(),
        ensures
            tag_pairs(r@) == push_tags(Seq::empty(), all_candidates(*ctx, registry.dynamic_aliases())),
            clean_unique_names(tag_pairs(r@)),
            from_metadata_engine(r@),
            dynamic_codes_nonempty(registry.dynamic_aliases()) ==> forall|i: int|
                0 <= i < r@.len() ==> (#[trigger] r@[i]).code@.len() > 0,
    {
        let ghost dyn_map = registry.dynamic_aliases();
        let scopes = metadata_scopes(&ctx.metadata);
        let ghost sv = scopes@.map_values(|e: &Vec<(String, MetaValue)>| e@);
        let mut out: Vec<FactTag> = Vec::new();
        assert(tag_pairs(out@) =~= Seq::<(Seq<char>, Seq<char>)>::empty());
        let mut audio: Vec<Dimension> = Vec::new();
        audio.push(Dimension::Album);
        audio.push(Dimension::Genre);
        let mut equipment: Vec<Dimension> = Vec::new();
        equipment.push(Dimension::Make);
        equipment.push(Dimension::Model);
        equipment.push(Dimension::Software);
        let mut document: Vec<Dimension> = Vec::new();
        document.push(Dimension::Organization);
        assert(audio@ =~= seq![Dimension::Album, Dimension::Genre]);
        assert(equipment@ =~= seq![Dimension::Make, Dimension::Model, Dimension::Software]);
        assert(document@ =~= seq![Dimension::Organization]);
        let ghost c1 = scopes_candidates(sv, audio@, dyn_map);
        let ghost c2 = scopes_candidates(sv, equipment@, dyn_map);
        let ghost c3 = scopes_candidates(sv, document@, dyn_map);
        let ghost f1 = fact_candidate(ctx.file_source.deep_view(), "dim.file_source"@);
        let ghost f2 = fact_candidate(ctx.workflow_state.deep_view(), "dim.workflow_state"@);
        let ghost f3 = fact_candidate(ctx.security_level.deep_view(), "dim.security_level"@);
        let ghost g = grade_candidate(ctx.quality_grade.deep_view());
        let ghost f4 = fact_candidate(ctx.language_label.deep_view(), "dim.language"@);
        add_scopes(&mut out, &scopes, &audio, registry);
        add_scopes(&mut out, &scopes, &equipment, registry);
        add_scopes(&mut out, &scopes, &document, registry);
        add_fact(&mut out, &ctx.file_source, "dim.file_source");
        add_fact(&mut out, &ctx.workflow_state, "dim.workflow_state");
        add_fact(&mut out, &ctx.security_level, "dim.security_level");
        add_grade(&mut out, &ctx.quality_grade);
        add_fact(&mut out, &ctx.language_label, "dim.language");
        proof {
            let e = Seq::<(Seq<char>, Seq<char>)>::empty();
            lemma_push_tags_append(e, c1, c2);
            lemma_push_tags_append(e, c1 + c2, c3);
            lemma_push_tags_append(e, c1 + c2 + c3, f1);
            lemma_push_tags_append(e, c1 + c2 + c3 + f1, f2);
            lemma_push_tags_append(e, c1 + c2 + c3 + f1 + f2, f3);
            lemma_push_tags_append(e, c1 + c2 + c3 + f1 + f2 + f3, g);
            lemma_push_tags_append(e, c1 + c2 + c3 + f1 + f2 + f3 + g, f4);
            assert(all_candidates(*ctx, dyn_map) == c1 + c2 + c3 + f1 + f2 + f3 + g + f4);
            lemma_push_tags_clean(e, all_candidates(*ctx, dyn_map));
            if dynamic_codes_nonempty(dyn_map) {
                law_fact_tag_codes_nonempty(*ctx, dyn_map);
                assert forall|i: int| 0 <= i < out@.len() implies (#[trigger] out@[i]).code@.len() > 0 by {
                    assert(tag_pairs(out@)[i] == (out@[i].name@, out@[i].code@));
                }
            }
        }
        out
    }
}

/// The context of a file known only by its metadata: no physical facts.
pub open spec fn metadata_only(metadata: MetaValue) -> FactTagContext {
    FactTagContext {
        metadata,
        file_source: None,
        workflow_state: None,
        security_level: None,
        quality_grade: None,
        language_label: None,
    }
}

/// The fact tags of metadata alone: `OmniFactTagExtractor::extract` on a
/// context that holds the metadata and no physical facts.
pub fn extract_fact_tags(metadata: MetaValue, registry: &TagRegistry) -> (r: Vec<FactTag>)
    requires
        registry.wf(),
    ensures
        tag_pairs(r@) == push_tags(
            Seq::empty(),
            all_candidates(metadata_only(metadata), registry.dynamic_aliases()),
        ),
        clean_unique_names(tag_pairs(r@)),
        from_metadata_engine(r@),
        dynamic_codes_nonempty(registry.dynamic_aliases()) ==> forall|i: int|
            0 <= i < r@.len() ==> (#[trigger] r@[i]).code@.len() > 0,
{
    let ctx = FactTagContext {
        metadata,
        file_source: None,
        workflow_state: None,
        security_level: None,
        quality_grade: None,
        language_label: None,
    };
    OmniFactTagExtractor::extract(&ctx, registry)
}

} // verus!
