//! Open Multilingual Wordnet queries over the shared read-only database:
//! language codes, the hypernym chain, lemma lists, the one-layer tag tree
//! and the statistics of unmapped concepts.
use vstd::prelude::*;
use crate::json::{json_array_items, json_array_items_of};
use crate::strlist::{contains_string, no_repeats, push_unique};
use crate::text::{chars_eq, chars_of, starts_with_str, trim_chars};
use crate::unmapped::present;
use crate::unicode::{all_ascii, ascii_lowercase, lowercase_chars, unicode_lowercase};
use crate::text::{trim, trim_end, trim_start};

verus! {

/// The OMW language code of a BCP-47 tag or locale.
pub open spec fn omw_language_spec(lang: Seq<char>) -> Seq<char> {
    let c = unicode_lowercase(trim(lang));
    if "zh"@.is_prefix_of(c) || c == "cmn"@ {
        "cmn"@
    } else if "en"@.is_prefix_of(c) || c == "eng"@ {
        "en"@
    } else if "ja"@.is_prefix_of(c) || c == "jpn"@ {
        "jpn"@
    } else if "fr"@.is_prefix_of(c) || c == "fra"@ {
        "fra"@
    } else if "de"@.is_prefix_of(c) || c == "deu"@ {
        "deu"@
    } else if "es"@.is_prefix_of(c) || c == "spa"@ {
        "spa"@
    } else if "pt"@.is_prefix_of(c) || c == "por"@ {
        "por"@
    } else if "ru"@.is_prefix_of(c) || c == "rus"@ {
        "rus"@
    } else if "it"@.is_prefix_of(c) || c == "ita"@ {
        "ita"@
    } else {
        "en"@
    }
}

/// The language codes of the OMW dictionary.
pub open spec fn omw_language_codes() -> Seq<Seq<char>> {
    seq!["cmn"@, "en"@, "jpn"@, "fra"@, "deu"@, "spa"@, "por"@, "rus"@, "ita"@]
}

/// Every language tag normalizes to one of the dictionary's nine codes.
pub proof fn law_omw_language_is_known(lang: Seq<char>)
    ensures
        omw_language_codes().contains(omw_language_spec(lang)),
{
    let l = omw_language_spec(lang);
    let codes = omw_language_codes();
    if l == "cmn"@ { assert(codes[0] == l); }
    else if l == "en"@ { assert(codes[1] == l); }
    else if l == "jpn"@ { assert(codes[2] == l); }
    else if l == "fra"@ { assert(codes[3] == l); }
    else if l == "deu"@ { assert(codes[4] == l); }
    else if l == "spa"@ { assert(codes[5] == l); }
    else if l == "por"@ { assert(codes[6] == l); }
    else if l == "rus"@ { assert(codes[7] == l); }
    else { assert(codes[8] == l); }
}

/// A language code normalizes to itself: normalizing twice is normalizing
/// once.
pub proof fn law_omw_language_idempotent(lang: Seq<char>)
    ensures
        omw_language_spec(omw_language_spec(lang)) == omw_language_spec(lang),
{
    let l = omw_language_spec(lang);
    reveal(unicode_lowercase);
    reveal_strlit("cmn");
    reveal_strlit("en");
    reveal_strlit("jpn");
    reveal_strlit("fra");
    reveal_strlit("deu");
    reveal_strlit("spa");
    reveal_strlit("por");
    reveal_strlit("rus");
    reveal_strlit("ita");
    reveal_strlit("zh");
    reveal_strlit("ja");
    reveal_strlit("fr");
    reveal_strlit("de");
    reveal_strlit("es");
    reveal_strlit("pt");
    reveal_strlit("ru");
    reveal_strlit("it");
    reveal_strlit("eng");
    assert(trim_start(l) == l);
    assert(trim_end(l) == l);
    assert(all_ascii(l));
    assert(ascii_lowercase(l) =~= l);
    assert(unicode_lowercase(trim(l)) == l);
}

fn is_lang(c: &[char], prefix: &str, code: &str) -> (r: bool)
    ensures
        r == (prefix@.is_prefix_of(c@) || c@ == code@),
{
    starts_with_str(c, prefix) || chars_eq(c, &chars_of(code))
}

/// Normalizes a language tag to the OMW dictionary's language code
/// (Chinese `cmn`, Japanese `jpn`, ...); unknown tags fall back to `en`.
pub fn normalize_omw_language(lang: &str) -> (r: &'static str)
    ensures
        r@ == omw_language_spec(lang@),
{
    let t = trim_chars(&chars_of(lang));
    let c = lowercase_chars(&t);
    if is_lang(&c, "zh", "cmn") {
        "cmn"
    } else if is_lang(&c, "en", "eng") {
        "en"
    } else if is_lang(&c, "ja", "jpn") {
        "jpn"
    } else if is_lang(&c, "fr", "fra") {
        "fra"
    } else if is_lang(&c, "de", "deu") {
        "deu"
    } else if is_lang(&c, "es", "spa") {
        "spa"
    } else if is_lang(&c, "pt", "por") {
        "por"
    } else if is_lang(&c, "ru", "rus") {
        "rus"
    } else if is_lang(&c, "it", "ita") {
        "ita"
    } else {
        "en"
    }
}

/// The default depth of a tree request.
pub fn default_tree_depth() -> (r: i64)
    ensures
        r == 1,
{
    1
}

/// The partition of a code: `builtin`, `omw`, `_ext` or `unknown`.
pub open spec fn code_source_spec(code: Seq<char>) -> Seq<char> {
    if "builtin."@.is_prefix_of(code) {
        "builtin"@
    } else if "omw."@.is_prefix_of(code) {
        "omw"@
    } else if "_ext."@.is_prefix_of(code) {
        "_ext"@
    } else {
        "unknown"@
    }
}

/// The partition of a code, inferred from its prefix.
pub fn code_source(code: &str) -> (r: &'static str)
    ensures
        r@ == code_source_spec(code@),
{
    let c = chars_of(code);
    if starts_with_str(&c, "builtin.") {
        "builtin"
    } else if starts_with_str(&c, "omw.") {
        "omw"
    } else if starts_with_str(&c, "_ext.") {
        "_ext"
    } else {
        "unknown"
    }
}

/// The other word of an antonym pair that contains `word`.
pub fn antonym_in_pair(word: &str, word_a: String, word_b: String) -> (r: String)
    ensures
        r@ == (if word_a@ == word@ {
            word_b@
        } else {
            word_a@
        }),
{
    if chars_eq(&chars_of(word_a.as_str()), &chars_of(word)) {
        word_b
    } else {
        word_a
    }
}

/// Request body of a lemma lookup.
pub struct OmwLookupRequest {
    pub word: String,
    /// OMW language code; `en` when absent.
    pub language: Option<String>,
}

/// Request body of a hypernym-chain query.
pub struct OmwHierarchyRequest {
    pub synset_id: String,
}

/// Request body of an antonym query.
pub struct OmwAntonymsRequest {
    pub word: String,
    /// OMW language code; `cmn` when absent.
    pub language: Option<String>,
}

/// Request body of a description query.
pub struct OmwDescribeRequest {
    pub word: String,
    pub language: Option<String>,
}

/// Request body of a tag mapping query.
pub struct OmwMappingRequest {
    pub tag_name: String,
}

/// Query of a one-layer tag tree.
pub struct OmwTreeRequest {
    pub root: String,
    /// Only 1 (one layer) is supported.
    pub depth: i64,
}

/// A node of the unified tag tree.
pub struct TreeNode {
    pub code: String,
    pub name: String,
    pub parent_codes: Vec<String>,
    /// `builtin`, `omw` or `_ext`, by code prefix.
    pub source: String,
    pub depth: i64,
}

impl TreeNode {
    /// The tree node of a `file_tags` row; its source is inferred from the
    /// code and its depth is left at 0.
    pub fn from_row(code: String, name: String, parent_codes: Vec<String>) -> (r: TreeNode)
        ensures
            r.code == code,
            r.name == name,
            r.parent_codes == parent_codes,
            r.source@ == code_source_spec(code@),
            r.depth == 0,
    {
        let source = code_source(code.as_str()).to_owned();
        TreeNode { code, name, parent_codes, source, depth: 0 }
    }
}

/// A node of a hypernym chain.
pub struct OmwSynsetNode {
    pub synset_id: String,
    pub rel_type: String,
    pub pos: String,
    pub lemmas: Vec<String>,
}

/// An antonym of a word, where it came from (the `source` column of an
/// antonym pair, or `omw_sense_relations`) and its language.
pub struct OmwAntonymResult {
    pub word: String,
    pub antonym: String,
    pub source: String,
    pub language: String,
}

/// A synset found by a lemma lookup, with its deduplicated lemmas.
pub struct OmwSynsetResult {
    pub id: String,
    pub pos: String,
    pub lexfile: Option<String>,
    pub definition: Option<String>,
    /// The `meta` column as a JSON object; an empty object when it is
    /// missing or not an object.
    pub meta: serde_json::Value,
    pub lemmas: Vec<String>,
}

/// A builtin tag that shares an OMW parent concept with the queried tag.
pub struct OmwTagResult {
    pub tag_code: String,
    pub tag_name: String,
    /// 1: found through a shared parent code (an exact match).
    pub match_level: i64,
}

/// The (rel_type, synset id, pos) rows of hypernym parents.
pub open spec fn parent_ids(rows: Seq<(Seq<char>, Seq<char>, Seq<char>)>) -> Seq<Seq<char>> {
    rows.map_values(|r: (Seq<char>, Seq<char>, Seq<char>)| r.1)
}

/// The parent rows not visited before, each synset at its first row.
pub open spec fn fresh_rows(
    visited: Seq<Seq<char>>,
    rows: Seq<(Seq<char>, Seq<char>, Seq<char>)>,
) -> Seq<(Seq<char>, Seq<char>, Seq<char>)>
    decreases rows.len(),
{
    if rows.len() == 0 {
        Seq::empty()
    } else {
        let prev = fresh_rows(visited, rows.drop_last());
        let r = rows.last();
        if visited.contains(r.1) || parent_ids(prev).contains(r.1) {
            prev
        } else {
            prev.push(r)
        }
    }
}

/// The fresh rows name synsets that were not visited, each once.
pub proof fn lemma_fresh_rows(visited: Seq<Seq<char>>, rows: Seq<(Seq<char>, Seq<char>, Seq<char>)>)
    ensures
        no_repeats(parent_ids(fresh_rows(visited, rows))),
        forall|x: Seq<char>| #[trigger] parent_ids(fresh_rows(visited, rows)).contains(x) ==> !visited.contains(x),
    decreases rows.len(),
{
    if rows.len() > 0 {
        lemma_fresh_rows(visited, rows.drop_last());
        let prev = fresh_rows(visited, rows.drop_last());
        let r = rows.last();
        if !(visited.contains(r.1) || parent_ids(prev).contains(r.1)) {
            let ids = parent_ids(prev.push(r));
            assert(ids =~= parent_ids(prev).push(r.1));
            assert forall|i: int, j: int| 0 <= i < j < ids.len() implies ids[i] != ids[j] by {
                if j == ids.len() - 1 {
                    assert(parent_ids(prev).contains(ids[i]));
                }
            }
            assert forall|x: Seq<char>| #[trigger] ids.contains(x) implies !visited.contains(x) by {
                let k = choose|k: int| 0 <= k < ids.len() && ids[k] == x;
                if k < ids.len() - 1 {
                    assert(parent_ids(prev).contains(x));
                }
            }
        }
    }
}

/// The parent rows whose synset was not visited yet, each synset once, in
/// the order read.
pub fn fresh_parents(visited: &Vec<String>, rows: &Vec<(String, String, String)>) -> (r: Vec<
    (String, String, String),
>)
    ensures
        r.deep_view() == fresh_rows(visited.deep_view(), rows.deep_view()),
{
    let ghost rv = rows.deep_view();
    let mut out: Vec<(String, String, String)> = Vec::new();
    let mut ids: Vec<String> = Vec::new();
    let mut i: usize = 0;
    while i < rows.len()
        invariant
            rv == rows.deep_view(),
            i <= rows.len(),
            out.deep_view() == fresh_rows(visited.deep_view(), rv.take(i as int)),
            ids.deep_view() == parent_ids(out.deep_view()),
        decreases rows.len() - i,
    {
        let rel = rows[i].0.clone();
        let id = rows[i].1.clone();
        let pos = rows[i].2.clone();
        proof {
            let t = rv.take(i + 1);
            assert(t.drop_last() =~= rv.take(i as int));
            assert(t.last() == (rel@, id@, pos@));
        }
        if !contains_string(visited, &id) && !contains_string(&ids, &id) {
            let ghost old_out = out.deep_view();
            let ghost old_ids = ids.deep_view();
            ids.push(id.clone());
            out.push((rel, id, pos));
            proof {
                assert(out.deep_view() =~= old_out.push((rel@, id@, pos@)));
                assert(ids.deep_view() =~= old_ids.push(id@));
                assert(parent_ids(old_out.push((rel@, id@, pos@))) =~= parent_ids(old_out).push(id@));
            }
        }
        i = i + 1;
    }
    assert(rv.take(rows.len() as int) =~= rv);
    out
}

/// The antonym of `word` in each pair that holds it: the pair's other word,
/// with the pair's source and language.
pub open spec fn pair_antonyms(
    word: Seq<char>,
    rows: Seq<(Seq<char>, Seq<char>, Seq<char>, Seq<char>)>,
) -> Seq<(Seq<char>, Seq<char>, Seq<char>, Seq<char>)> {
    rows.map_values(
        |r: (Seq<char>, Seq<char>, Seq<char>, Seq<char>)|
            (word, if r.0 == word {
                r.1
            } else {
                r.0
            }, r.2, r.3),
    )
}

/// The (word, antonym, source, language) of a list of antonym results.
pub open spec fn antonym_views(v: Seq<OmwAntonymResult>) -> Seq<(Seq<char>, Seq<char>, Seq<char>, Seq<char>)> {
    v.map_values(|a: OmwAntonymResult| (a.word@, a.antonym@, a.source@, a.language@))
}

/// Antonym results from `(word_a, word_b, source, language)` pair rows.
pub fn antonyms_from_pairs(word: &str, rows: &Vec<(String, String, String, String)>) -> (r: Vec<
    OmwAntonymResult,
>)
    ensures
        antonym_views(r@) == pair_antonyms(word@, rows.deep_view()),
        forall|i: int| 0 <= i < r@.len() ==> (#[trigger] r@[i]).word@ == word@,
{
    let ghost rv = rows.deep_view();
    let mut out: Vec<OmwAntonymResult> = Vec::new();
    let mut i: usize = 0;
    while i < rows.len()
        invariant
            rv == rows.deep_view(),
            i <= rows.len(),
            antonym_views(out@) == pair_antonyms(word@, rv.take(i as int)),
            forall|k: int| 0 <= k < out@.len() ==> (#[trigger] out@[k]).word@ == word@,
        decreases rows.len() - i,
    {
        let a = antonym_in_pair(word, rows[i].0.clone(), rows[i].1.clone());
        let res = OmwAntonymResult {
            word: word.to_owned(),
            antonym: a,
            source: rows[i].2.clone(),
            language: rows[i].3.clone(),
        };
        let ghost old_out = out@;
        out.push(res);
        proof {
            assert(antonym_views(out@) =~= antonym_views(old_out).push(
                (word@, res.antonym@, res.source@, res.language@),
            ));
            assert(pair_antonyms(word@, rv.take(i + 1)) =~= pair_antonyms(word@, rv.take(i as int)).push(
                pair_antonyms(word@, rv)[i as int],
            ));
        }
        i = i + 1;
    }
    assert(rv.take(rows.len() as int) =~= rv);
    out
}

/// Antonym results from the lemmas that OMW sense relations mark as
/// antonyms of `word`, tagged with the source `omw_sense_relations`.
pub fn antonyms_from_senses(word: &str, language: &str, lemmas: &Vec<String>) -> (r: Vec<
    OmwAntonymResult,
>)
    ensures
        antonym_views(r@) == lemmas.deep_view().map_values(
            |l: Seq<char>| (word@, l, "omw_sense_relations"@, language@),
        ),
        forall|i: int| 0 <= i < r@.len() ==> (#[trigger] r@[i]).word@ == word@,
{
    let ghost lv = lemmas.deep_view();
    let mut out: Vec<OmwAntonymResult> = Vec::new();
    let mut i: usize = 0;
    while i < lemmas.len()
        invariant
            lv == lemmas.deep_view(),
            i <= lemmas.len(),
            antonym_views(out@) == lv.take(i as int).map_values(
                |l: Seq<char>| (word@, l, "omw_sense_relations"@, language@),
            ),
            forall|k: int| 0 <= k < out@.len() ==> (#[trigger] out@[k]).word@ == word@,
        decreases lemmas.len() - i,
    {
        let res = OmwAntonymResult {
            word: word.to_owned(),
            antonym: lemmas[i].clone(),
            source: "omw_sense_relations".to_owned(),
            language: language.to_owned(),
        };
        let ghost old_out = out@;
        out.push(res);
        proof {
            assert(antonym_views(out@) =~= antonym_views(old_out).push(
                (word@, res.antonym@, res.source@, res.language@),
            ));
            assert(lv.take(i + 1) =~= lv.take(i as int).push(lv[i as int]));
        }
        i = i + 1;
    }
    assert(lv.take(lemmas.len() as int) =~= lv);
    out
}

/// The first definition whose trimmed text is not empty.
pub open spec fn first_definition_spec(defs: Seq<Option<Seq<char>>>) -> Option<Seq<char>>
    decreases defs.len(),
{
    if defs.len() == 0 {
        None
    } else {
        match defs[0] {
            Some(d) => if trim(d).len() > 0 {
                Some(d)
            } else {
                first_definition_spec(defs.drop_first())
            },
            None => first_definition_spec(defs.drop_first()),
        }
    }
}

/// A definition that is picked has non-empty trimmed text.
pub proof fn lemma_first_definition_nonempty(defs: Seq<Option<Seq<char>>>)
    ensures
        first_definition_spec(defs) matches Some(d) ==> trim(d).len() > 0,
    decreases defs.len(),
{
    if defs.len() > 0 {
        lemma_first_definition_nonempty(defs.drop_first());
    }
}

/// The definitions of a list of lookup results.
pub open spec fn definitions(v: Seq<OmwSynsetResult>) -> Seq<Option<Seq<char>>> {
    v.map_values(|s: OmwSynsetResult| s.definition.deep_view())
}

/// The first non-empty definition among lookup results.
pub fn first_definition(results: &Vec<OmwSynsetResult>) -> (r: Option<String>)
    ensures
        r.deep_view() == first_definition_spec(definitions(results@)),
{
    let ghost dv = definitions(results@);
    let mut i: usize = 0;
    assert(dv.skip(0) =~= dv);
    while i < results.len()
        invariant
            dv == definitions(results@),
            i <= results.len(),
            first_definition_spec(dv) == first_definition_spec(dv.skip(i as int)),
        decreases results.len() - i,
    {
        proof {
            assert(dv.skip(i as int).drop_first() =~= dv.skip(i + 1));
            assert(dv.skip(i as int)[0] == dv[i as int]);
        }
        if let Some(d) = &results[i].definition {
            let t = trim_chars(&chars_of(d.as_str()));
            if t.len() > 0 {
                return Some(d.clone());
            }
        }
        i = i + 1;
    }
    assert(dv.skip(results.len() as int) =~= Seq::<Option<Seq<char>>>::empty());
    None
}

/// The string items of a JSON array text (non-string items skipped), or
/// nothing when the text is not a JSON array.
pub open spec fn string_items(text: Seq<char>) -> Seq<Seq<char>> {
    match json_array_items_of(text) {
        Some(items) => present(items),
        None => Seq::empty(),
    }
}

/// Adds the string items of the JSON array `raw` to `codes`, skipping those
/// already present.
pub fn add_parent_codes(codes: &mut Vec<String>, raw: &str)
    ensures
        final(codes).deep_view() == push_all_unique(old(codes).deep_view(), string_items(raw@)),
{
    let items = json_array_items(raw);
    match items {
        Some(items) => {
            let ghost iv = items.deep_view();
            let ghost start = codes.deep_view();
            let mut i: usize = 0;
            while i < items.len()
                invariant
                    iv == items.deep_view(),
                    i <= items.len(),
                    codes.deep_view() == push_all_unique(start, present(iv.take(i as int))),
                decreases items.len() - i,
            {
                proof {
                    assert(iv.take(i + 1).drop_last() =~= iv.take(i as int));
                    assert(iv.take(i + 1).last() == iv[i as int]);
                }
                if let Some(c) = &items[i] {
                    proof {
                        let pv = present(iv.take(i as int));
                        assert(iv[i as int] == Some(c@));
                        assert(present(iv.take(i + 1)) == pv.push(c@));
                        assert(pv.push(c@).drop_last() =~= pv);
                    }
                    push_unique(codes, c.clone());
                }
                i = i + 1;
            }
            assert(iv.take(items.len() as int) =~= iv);
        },
        None => {},
    }
}

/// `acc` extended by each item of `items` not yet present.
pub open spec fn push_all_unique(acc: Seq<Seq<char>>, items: Seq<Seq<char>>) -> Seq<Seq<char>>
    decreases items.len(),
{
    if items.len() == 0 {
        acc
    } else {
        let a = push_all_unique(acc, items.drop_last());
        if a.contains(items.last()) {
            a
        } else {
            a.push(items.last())
        }
    }
}

/// Whether some code is an OMW concept code.
pub fn has_omw_code(codes: &Vec<String>) -> (r: bool)
    ensures
        r == exists|i: int| 0 <= i < codes@.len() && "omw."@.is_prefix_of(#[trigger] codes@[i]@),
{
    let mut i: usize = 0;
    while i < codes.len()
        invariant
            i <= codes.len(),
            forall|k: int| 0 <= k < i ==> !"omw."@.is_prefix_of(#[trigger] codes@[k]@),
        decreases codes.len() - i,
    {
        if starts_with_str(&chars_of(codes[i].as_str()), "omw.") {
            return true;
        }
        i = i + 1;
    }
    false
}

/// The (code, name) rows as tag results, without the queried tag's own codes.
pub open spec fn sibling_tags(
    own: Seq<Seq<char>>,
    rows: Seq<(Seq<char>, Seq<char>)>,
) -> Seq<(Seq<char>, Seq<char>)>
    decreases rows.len(),
{
    if rows.len() == 0 {
        Seq::empty()
    } else {
        let prev = sibling_tags(own, rows.drop_last());
        if own.contains(rows.last().0) {
            prev
        } else {
            prev.push(rows.last())
        }
    }
}

/// The (code, name) of a list of tag results.
pub open spec fn tag_result_views(v: Seq<OmwTagResult>) -> Seq<(Seq<char>, Seq<char>)> {
    v.map_values(|t: OmwTagResult| (t.tag_code@, t.tag_name@))
}

/// The tag rows that are not the queried tag itself, each at match level 1.
pub fn siblings_excluding(own: &Vec<String>, rows: &Vec<(String, String)>) -> (r: Vec<OmwTagResult>)
    ensures
        tag_result_views(r@) == sibling_tags(own.deep_view(), rows.deep_view()),
        forall|i: int| 0 <= i < r@.len() ==> (#[trigger] r@[i]).match_level == 1,
{
    let ghost rv = rows.deep_view();
    let mut out: Vec<OmwTagResult> = Vec::new();
    let mut i: usize = 0;
    while i < rows.len()
        invariant
            rv == rows.deep_view(),
            i <= rows.len(),
            tag_result_views(out@) == sibling_tags(own.deep_view(), rv.take(i as int)),
            forall|k: int| 0 <= k < out@.len() ==> (#[trigger] out@[k]).match_level == 1,
        decreases rows.len() - i,
    {
        proof {
            assert(rv.take(i + 1).drop_last() =~= rv.take(i as int));
            assert(rv.take(i + 1).last() == rv[i as int]);
        }
        if !contains_string(own, &rows[i].0) {
            let t = OmwTagResult { tag_code: rows[i].0.clone(), tag_name: rows[i].1.clone(), match_level: 1 };
            let ghost old_out = out@;
            out.push(t);
            proof {
                assert(tag_result_views(out@) =~= tag_result_views(old_out).push((t.tag_code@, t.tag_name@)));
            }
        }
        i = i + 1;
    }
    assert(rv.take(rows.len() as int) =~= rv);
    out
}

/// The strings of a JSON array text, when every item is a string; otherwise
/// (or when the text is no array) the empty list.
pub open spec fn string_list_or_empty_spec(text: Seq<char>) -> Seq<Seq<char>> {
    match json_array_items_of(text) {
        Some(items) => if forall|i: int| 0 <= i < items.len() ==> (#[trigger] items[i]) is Some {
            present(items)
        } else {
            Seq::empty()
        },
        None => Seq::empty(),
    }
}

/// Reads a JSON array of strings; anything else reads as the empty list.
pub fn string_list_or_empty(raw: &str) -> (r: Vec<String>)
    ensures
        r.deep_view() == string_list_or_empty_spec(raw@),
{
    match json_array_items(raw) {
        Some(items) => {
            let ghost iv = items.deep_view();
            let mut out: Vec<String> = Vec::new();
            let mut i: usize = 0;
            while i < items.len()
                invariant
                    iv == items.deep_view(),
                    i <= items.len(),
                    out.deep_view() == present(iv.take(i as int)),
                    json_array_items_of(raw@) == Some(iv),
                    forall|k: int| 0 <= k < i ==> (#[trigger] iv[k]) is Some,
                decreases items.len() - i,
            {
                proof {
                    assert(iv.take(i + 1).drop_last() =~= iv.take(i as int));
                    assert(iv.take(i + 1).last() == iv[i as int]);
                }
                match &items[i] {
                    Some(c) => {
                        let ghost old_out = out.deep_view();
                        out.push(c.clone());
                        proof {
                            assert(out.deep_view() =~= old_out.push(c@));
                        }
                    },
                    None => {
                        proof {
                            assert(!(forall|k: int| 0 <= k < iv.len() ==> (#[trigger] iv[k]) is Some)) by {
                                assert(iv[i as int] is None);
                            }
                        }
                        let empty: Vec<String> = Vec::new();
                        assert(empty.deep_view() =~= Seq::<Seq<char>>::empty());
                        return empty;
                    },
                }
                i = i + 1;
            }
            assert(iv.take(items.len() as int) =~= iv);
            out
        },
        None => {
            let empty: Vec<String> = Vec::new();
            assert(empty.deep_view() =~= Seq::<Seq<char>>::empty());
            empty
        },
    }
}

} // verus!
