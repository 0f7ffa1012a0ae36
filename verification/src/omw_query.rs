//! OMW queries over the shared read-only SQLite database: lemma lookup, the
//! hypernym chain, antonyms, definitions, tag mapping through shared OMW
//! parents, the one-layer tag tree and the unmapped-concept statistics.
//!
//! Every query reads through a `Db`, which records each statement it runs.
//! What the database holds is not known to the proofs; each function states
//! the statements it runs (their text and parameters, in order) and what
//! holds of every outcome, and the decisions on the rows read are made by
//! verified functions with exact contracts that take the rows as arguments
//! (`synsets_from_rows`, `hierarchy_step`, `antonyms_from_rows`,
//! `mapping_from_rows`, `tree_nodes`, and those of `omw` and `unmapped`).
use vstd::prelude::*;
use crate::json::{json_empty_object, json_object, json_strings_text, json_text_of_strings};
use crate::omw::{add_parent_codes, fresh_rows, sibling_tags, tag_result_views, push_all_unique, string_items, antonym_views, pair_antonyms, omw_language_spec, string_list_or_empty_spec, first_definition_spec, antonyms_from_pairs, antonyms_from_senses, first_definition, definitions, fresh_parents, has_omw_code, lemma_fresh_rows, normalize_omw_language, parent_ids, siblings_excluding, string_list_or_empty, OmwAntonymResult, OmwSynsetNode, OmwSynsetResult, OmwTagResult, TreeNode, code_source_spec};
use crate::db::{clone_opt, required, required_rows1, required_rows2, required_rows3, required_rows4, sql, QueryError};
use crate::sqlite::{lemma_entry_none, lemma_entry_one, lemma_entry_two, lemma_log_extends_more, lemma_log_extends_prefix, lemma_log_extends_refl, lemma_log_extends_trans, lemma_log_suffix, log_extends, query_entry, Db};
use crate::strlist::{dedup_seq, dedup_keep_first, lemma_dedup_no_repeats, no_repeats, push_unique};
use crate::tag_identity::{builtin_code_spec, builtin_tag_code, TagRegistry};
use crate::text::{trim, trim_str};
use crate::unmapped::{stats_of, unmapped_stats_from, UnmappedStats};

verus! {

/// The lemmas of a synset.
pub const LEMMAS_SQL: &'static str = "SELECT DISTINCT lemma FROM omw_lexical_entries WHERE synset_id = ?1";

/// The synsets of a word in a language or in English.
pub const LOOKUP_SQL: &'static str = "SELECT DISTINCT s.id, s.pos, s.lexfile, s.definition, s.meta
             FROM omw_lexical_entries e
             JOIN omw_synsets s ON e.synset_id = s.id
             WHERE e.lemma = ?1 COLLATE NOCASE
               AND (e.language = ?2 OR e.language = 'en')
             LIMIT 50";

/// The hypernym parents of a synset.
pub const HYPERNYM_SQL: &'static str = "SELECT r.rel_type, s.id, s.pos
                 FROM omw_relations r
                 JOIN omw_synsets s ON r.target_id = s.id
                 WHERE r.source_id = ?1 AND r.rel_type = 'hypernym'
                 LIMIT 50";

/// The antonym pairs that hold a word.
pub const ANTONYM_PAIRS_SQL: &'static str = "SELECT word_a, word_b, source, language
             FROM antonym_pairs
             WHERE word_a = ?1 OR word_b = ?1";

/// The antonyms of a word through OMW sense relations.
pub const ANTONYM_SENSES_SQL: &'static str = "SELECT e2.lemma
             FROM omw_lexical_entries e1
             JOIN omw_sense_relations sr ON e1.id = sr.source_entry_id
             JOIN omw_lexical_entries e2 ON sr.target_entry_id = e2.id
             WHERE e1.lemma = ?1 COLLATE NOCASE AND sr.rel_type = 'antonym'
             LIMIT 50";

/// The parent codes stored for a tag code.
pub const PARENT_CODES_SQL: &'static str = "SELECT parent_codes FROM file_tags WHERE code = ?1";

/// The tags found by name or code.
pub const MAPPING_SELF_SQL: &'static str = "SELECT code, parent_codes FROM file_tags WHERE name = ?1 COLLATE NOCASE OR code = ?1 COLLATE NOCASE";

/// Whether the alias table exists.
pub const ALIAS_TABLE_SQL: &'static str = "SELECT 1 FROM sqlite_master WHERE type = 'table' AND name = 'tag_aliases'";

/// The tag codes of a lemma in the alias table.
pub const ALIAS_CODES_SQL: &'static str = "SELECT DISTINCT tag_code FROM tag_aliases WHERE lemma = ?1 COLLATE NOCASE";

/// The builtin tags under any of the given parents (a JSON list).
pub const MAPPING_REVERSE_SQL: &'static str = "SELECT DISTINCT t.code, t.name
                 FROM file_tags t, json_each(t.parent_codes) AS j
                 WHERE t.code LIKE 'builtin.%'
                   AND j.value LIKE 'omw.%'
                   AND j.value IN (SELECT value FROM json_each(?1))
                 ORDER BY t.code";

/// The tags directly under a root.
pub const TREE_SQL: &'static str = "SELECT code, name, parent_codes
             FROM file_tags
             WHERE EXISTS (
                 SELECT 1 FROM json_each(parent_codes) WHERE value = ?1
             )
             ORDER BY code";

/// The OMW codes used as parents by some tag.
pub const REFERENCED_CODES_SQL: &'static str = "SELECT DISTINCT j.value
             FROM file_tags t, json_each(t.parent_codes) AS j
             WHERE j.value LIKE 'omw.%'";

/// Every synset with its lexicographer file.
pub const SYNSETS_SQL: &'static str = "SELECT id, lexfile FROM omw_synsets";

/// Every hypernym edge.
pub const HYPERNYM_EDGES_SQL: &'static str = "SELECT source_id, target_id FROM omw_relations WHERE rel_type = 'hypernym'";

/// The most hypernym steps a chain query climbs (a guard against cycles in
/// dirty data).
pub const HIERARCHY_MAX_DEPTH: usize = 64;

/// The lemmas of a synset, each once, in the order the database returns them.
fn lemmas_of(db: &mut Db, synset_id: &str) -> (r: Result<Vec<String>, QueryError>)
    ensures
        final(db).log() == old(db).log().push(query_entry(LEMMAS_SQL@, seq![synset_id])),
        r matches Ok(v) ==> no_repeats(v.deep_view()),
        r matches Ok(v) ==> deduped_rows(v.deep_view()),
{
    let args = [synset_id];
    let raw = db.select_text(LEMMAS_SQL, &args);
    assert(args@ =~= seq![synset_id]);
    let raw = sql(raw)?;
    let lemmas = required_rows1(&raw)?;
    proof {
        lemma_dedup_no_repeats(lemmas.deep_view());
    }
    let d = dedup_keep_first(&lemmas);
    assert(d.deep_view() == dedup_seq(lemmas.deep_view()));
    Ok(d)
}

/// The `meta` column as a JSON object: an empty object when it is missing or
/// holds anything but an object.
fn parse_meta(raw: &Option<String>) -> (r: serde_json::Value) {
    match raw {
        Some(s) => match json_object(s.as_str()) {
            Some(v) => v,
            None => json_empty_object(),
        },
        None => json_empty_object(),
    }
}

/// The lemmas are some rows, each kept once.
pub open spec fn deduped_rows(lemmas: Seq<Seq<char>>) -> bool {
    exists|rows: Seq<Seq<char>>| lemmas == #[trigger] dedup_seq(rows)
}

/// The statement that finds the synsets of `word` in `language`: the word
/// and the normalized language code are its parameters.
pub open spec fn lookup_entry(word: Seq<char>, language: Seq<char>) -> (Seq<char>, Seq<Seq<char>>) {
    (LOOKUP_SQL@, seq![word, omw_language_spec(language)])
}

/// The statement that reads the lemmas of the synset `id`.
pub open spec fn lemmas_entry(id: Seq<char>) -> (Seq<char>, Seq<Seq<char>>) {
    (LEMMAS_SQL@, seq![id])
}

/// The lemma statements for the synsets found, in order.
pub open spec fn lemma_entries(v: Seq<OmwSynsetResult>) -> Seq<(Seq<char>, Seq<Seq<char>>)> {
    v.map_values(|s: OmwSynsetResult| lemmas_entry(s.id@))
}

/// The synsets of `word` (case-insensitive) in the language `language`
/// (normalized to an OMW code) or in English, at most 50, each with its
/// lemmas. The first statement run is the lookup of the word in that
/// language; on success it is followed by one lemma read per synset found,
/// in order, and nothing else.
pub fn lookup(db: &mut Db, word: &str, language: &str) -> (r: Result<
    Vec<OmwSynsetResult>,
    QueryError,
>)
    ensures
        log_extends(old(db).log().push(lookup_entry(word@, language@)), final(db).log()),
        r matches Ok(v) ==> final(db).log() == old(db).log().push(lookup_entry(word@, language@)) + lemma_entries(v@),
        r matches Ok(v) ==> forall|i: int| 0 <= i < v@.len() ==> no_repeats(#[trigger] v@[i].lemmas.deep_view()),
        r matches Ok(v) ==> forall|i: int| 0 <= i < v@.len() ==> deduped_rows(#[trigger] v@[i].lemmas.deep_view()),
        r matches Ok(v) ==> synsets_of_some_rows(v@),
{
    let lang = normalize_omw_language(language);
    let args = [word, lang];
    let raw = db.select_text5(LOOKUP_SQL, &args);
    let ghost log1 = db.log();
    proof {
        assert(args@ =~= seq![word, lang]);
        lemma_entry_two(LOOKUP_SQL@, word, lang);
        lemma_log_extends_refl(log1);
    }
    let raw = sql(raw)?;
    let ghost rv = raw.deep_view();
    let mut lists: Vec<Vec<String>> = Vec::new();
    let mut i: usize = 0;
    while i < raw.len()
        invariant
            rv == raw.deep_view(),
            i <= raw.len(),
            lists@.len() == i,
            log1 == old(db).log().push(lookup_entry(word@, language@)),
            forall|k: int| 0 <= k < i ==> synset_row_ok(#[trigger] rv[k]),
            forall|k: int| 0 <= k < i ==> no_repeats(#[trigger] lists@[k].deep_view()),
            forall|k: int| 0 <= k < i ==> deduped_rows(#[trigger] lists@[k].deep_view()),
            db.log() == log1 + row_lemma_entries(rv.take(i as int)),
        decreases raw.len() - i,
    {
        proof {
            assert(rv[i as int] == raw@[i as int].deep_view());
            lemma_log_extends_prefix(log1, row_lemma_entries(rv.take(i as int)));
        }
        let id = match required(&raw[i].0) {
            Ok(id) => id,
            Err(e) => {
                return Err(e);
            },
        };
        let _pos = match required(&raw[i].1) {
            Ok(p) => p,
            Err(e) => {
                return Err(e);
            },
        };
        let ghost log_before = db.log();
        let id_str: &str = id.as_str();
        let lemmas = lemmas_of(db, id_str);
        proof {
            lemma_entry_one(LEMMAS_SQL@, id_str);
            lemma_log_extends_prefix(log1, row_lemma_entries(rv.take(i as int)));
            lemma_log_extends_more(log1, log_before, lemmas_entry(id@));
            assert(rv.take(i + 1) =~= rv.take(i as int).push(rv[i as int]));
            assert(row_lemma_entries(rv.take(i + 1)) =~= row_lemma_entries(rv.take(i as int)).push(lemmas_entry(id@)));
            assert(db.log() =~= log1 + row_lemma_entries(rv.take(i + 1)));
        }
        let lemmas = lemmas?;
        let ghost before = lists@;
        lists.push(lemmas);
        proof {
            assert forall|k: int| 0 <= k < i + 1 implies no_repeats(#[trigger] lists@[k].deep_view())
                && deduped_rows(lists@[k].deep_view()) by {
                if k < i {
                    assert(lists@[k] == before[k]);
                }
            }
        }
        i = i + 1;
    }
    proof {
        lemma_log_extends_prefix(log1, row_lemma_entries(rv.take(i as int)));
    }
    let results = synsets_from_rows(&raw, &lists)?;
    proof {
        assert forall|k: int| 0 <= k < results@.len() implies no_repeats(#[trigger] results@[k].lemmas.deep_view())
            && deduped_rows(results@[k].lemmas.deep_view()) by {
            assert(synset_of_row(results@[k], rv[k], lists@[k].deep_view()));
        }
        assert(synsets_of_rows(results@, rv, lists.deep_view()));
        assert(rv.take(raw.len() as int) =~= rv);
        assert forall|k: int| 0 <= k < results@.len() implies #[trigger] lemma_entries(results@)[k]
            == row_lemma_entries(rv)[k] by {
            assert(synset_of_row(results@[k], rv[k], lists@[k].deep_view()));
        }
        assert(lemma_entries(results@) =~= row_lemma_entries(rv));
    }
    Ok(results)
}

/// The lemma statements for raw synset rows, by their ids.
pub open spec fn row_lemma_entries(
    rows: Seq<(Option<Seq<char>>, Option<Seq<char>>, Option<Seq<char>>, Option<Seq<char>>, Option<Seq<char>>)>,
) -> Seq<(Seq<char>, Seq<Seq<char>>)> {
    rows.map_values(
        |row: (Option<Seq<char>>, Option<Seq<char>>, Option<Seq<char>>, Option<Seq<char>>, Option<Seq<char>>)|
            lemmas_entry(row.0->Some_0),
    )
}

/// A raw synset row `(id, pos, lexfile, definition, meta)` with its id and
/// part of speech.
pub open spec fn synset_row_ok(
    row: (Option<Seq<char>>, Option<Seq<char>>, Option<Seq<char>>, Option<Seq<char>>, Option<Seq<char>>),
) -> bool {
    row.0 is Some && row.1 is Some
}

/// A synset result read from a raw row and its lemmas (its `meta` object is
/// not stated).
pub open spec fn synset_of_row(
    s: OmwSynsetResult,
    row: (Option<Seq<char>>, Option<Seq<char>>, Option<Seq<char>>, Option<Seq<char>>, Option<Seq<char>>),
    lemmas: Seq<Seq<char>>,
) -> bool {
    &&& row.0 == Some(s.id@)
    &&& row.1 == Some(s.pos@)
    &&& s.lexfile.deep_view() == row.2
    &&& s.definition.deep_view() == row.3
    &&& s.lemmas.deep_view() == lemmas
}

/// The results are those of the raw rows and lemma lists, one each, in order.
pub open spec fn synsets_of_rows(
    v: Seq<OmwSynsetResult>,
    raw: Seq<(Option<Seq<char>>, Option<Seq<char>>, Option<Seq<char>>, Option<Seq<char>>, Option<Seq<char>>)>,
    lemmas: Seq<Seq<Seq<char>>>,
) -> bool {
    v.len() == raw.len() && forall|i: int| 0 <= i < v.len() ==> synset_of_row(#[trigger] v[i], raw[i], lemmas[i])
}

/// The results are those of some rows.
pub open spec fn synsets_of_some_rows(v: Seq<OmwSynsetResult>) -> bool {
    exists|
        raw: Seq<(Option<Seq<char>>, Option<Seq<char>>, Option<Seq<char>>, Option<Seq<char>>, Option<Seq<char>>)>,
        lemmas: Seq<Seq<Seq<char>>>,
    | #[trigger] synsets_of_rows(v, raw, lemmas)
}

/// The synset results of raw rows and their lemma lists (aligned):
/// `MissingValue` exactly when a row lacks its id or part of speech;
/// otherwise one result per row (see `synset_of_row`).
pub fn synsets_from_rows(
    raw: &Vec<(Option<String>, Option<String>, Option<String>, Option<String>, Option<String>)>,
    lemma_lists: &Vec<Vec<String>>,
) -> (r: Result<Vec<OmwSynsetResult>, QueryError>)
    requires
        lemma_lists.len() == raw.len(),
    ensures
        (r is Ok) <==> (forall|i: int| 0 <= i < raw@.len() ==> synset_row_ok(#[trigger] raw.deep_view()[i])),
        r matches Err(e) ==> e is MissingValue,
        r matches Ok(v) ==> synsets_of_rows(v@, raw.deep_view(), lemma_lists.deep_view()),
{
    let ghost rv = raw.deep_view();
    let ghost lv = lemma_lists.deep_view();
    let mut results: Vec<OmwSynsetResult> = Vec::new();
    let mut i: usize = 0;
    while i < raw.len()
        invariant
            rv == raw.deep_view(),
            lv == lemma_lists.deep_view(),
            lemma_lists.len() == raw.len(),
            i <= raw.len(),
            results@.len() == i,
            forall|k: int| 0 <= k < i ==> synset_row_ok(#[trigger] rv[k]),
            forall|k: int| 0 <= k < i ==> synset_of_row(#[trigger] results@[k], rv[k], lv[k]),
        decreases raw.len() - i,
    {
        proof {
            assert(rv[i as int] == raw@[i as int].deep_view());
            assert(lv[i as int] == lemma_lists@[i as int].deep_view());
        }
        let id = required(&raw[i].0)?;
        let pos = required(&raw[i].1)?;
        let lexfile = clone_opt(&raw[i].2);
        let definition = clone_opt(&raw[i].3);
        let meta = parse_meta(&raw[i].4);
        let lemmas = crate::strlist::clone_strings(&lemma_lists[i]);
        let item = OmwSynsetResult { id, pos, lexfile, definition, meta, lemmas };
        let ghost before = results@;
        results.push(item);
        proof {
            assert forall|k: int| 0 <= k < i + 1 implies synset_of_row(#[trigger] results@[k], rv[k], lv[k]) by {
                if k < i {
                    assert(results@[k] == before[k]);
                }
            }
        }
        i = i + 1;
    }
    Ok(results)
}

/// The synset ids of a hypernym chain.
pub open spec fn chain_ids(chain: Seq<OmwSynsetNode>) -> Seq<Seq<char>> {
    chain.map_values(|n: OmwSynsetNode| n.synset_id@)
}

/// A chain node as values: synset id, relation, part of speech and lemmas.
pub open spec fn node_view(n: OmwSynsetNode) -> (Seq<char>, Seq<char>, Seq<char>, Seq<Seq<char>>) {
    (n.synset_id@, n.rel_type@, n.pos@, n.lemmas.deep_view())
}

/// The chain nodes as values, in order.
pub open spec fn chain_view(chain: Seq<OmwSynsetNode>) -> Seq<(Seq<char>, Seq<char>, Seq<char>, Seq<Seq<char>>)> {
    chain.map_values(|n: OmwSynsetNode| node_view(n))
}

/// The nodes of fresh parent rows `(relation, id, part of speech)`, each
/// with the lemma list read for it (aligned).
pub open spec fn step_nodes(
    fresh: Seq<(Seq<char>, Seq<char>, Seq<char>)>,
    lemmas: Seq<Seq<Seq<char>>>,
) -> Seq<(Seq<char>, Seq<char>, Seq<char>, Seq<Seq<char>>)> {
    Seq::new(fresh.len(), |k: int| (fresh[k].1, fresh[k].0, fresh[k].2, lemmas[k]))
}

/// The statement that reads the hypernym parents of `cursor`.
pub open spec fn hypernym_entry(cursor: Seq<char>) -> (Seq<char>, Seq<Seq<char>>) {
    (HYPERNYM_SQL@, seq![cursor])
}

/// Where a climb stands: the nodes gathered, the statements run, the
/// synsets seen, the synset whose parents are read next, and whether a step
/// found no new parent.
pub struct ClimbState {
    pub nodes: Seq<(Seq<char>, Seq<char>, Seq<char>, Seq<Seq<char>>)>,
    pub queries: Seq<(Seq<char>, Seq<Seq<char>>)>,
    pub visited: Seq<Seq<char>>,
    pub cursor: Seq<char>,
    pub stopped: bool,
}

/// The climb from `start` over the rows read at each step: the parent rows
/// of the cursor and the lemma lists of the parents not seen before. Each
/// step reads the cursor's parents; if none is new, the climb stops;
/// otherwise the new parents are added in the order read, their lemmas are
/// read one by one, and the climb goes on from the first of them. Steps
/// after a stop change nothing.
pub open spec fn climb(
    start: Seq<char>,
    steps: Seq<(Seq<(Seq<char>, Seq<char>, Seq<char>)>, Seq<Seq<Seq<char>>>)>,
) -> ClimbState
    decreases steps.len(),
{
    if steps.len() == 0 {
        ClimbState { nodes: Seq::empty(), queries: Seq::empty(), visited: seq![start], cursor: start, stopped: false }
    } else {
        let prev = climb(start, steps.drop_last());
        if prev.stopped {
            prev
        } else {
            let fresh = fresh_rows(prev.visited, steps.last().0);
            let asked = prev.queries.push(hypernym_entry(prev.cursor));
            if fresh.len() == 0 {
                ClimbState {
                    nodes: prev.nodes,
                    queries: asked,
                    visited: prev.visited,
                    cursor: prev.cursor,
                    stopped: true,
                }
            } else {
                ClimbState {
                    nodes: prev.nodes + step_nodes(fresh, steps.last().1),
                    queries: asked + parent_ids(fresh).map_values(|id: Seq<char>| lemmas_entry(id)),
                    visited: prev.visited + parent_ids(fresh),
                    cursor: fresh[0].1,
                    stopped: false,
                }
            }
        }
    }
}

/// One climb step from the parent rows read for the cursor and the lemma
/// lists read for the parents not seen yet (aligned with them): a node for
/// each such parent, in the order read, with its relation, part of speech
/// and lemmas (see `step_nodes`).
pub fn hierarchy_step(
    visited: &Vec<String>,
    rows: &Vec<(String, String, String)>,
    lemma_lists: &Vec<Vec<String>>,
) -> (r: Vec<OmwSynsetNode>)
    requires
        lemma_lists.len() == fresh_rows(visited.deep_view(), rows.deep_view()).len(),
    ensures
        chain_view(r@) == step_nodes(fresh_rows(visited.deep_view(), rows.deep_view()), lemma_lists.deep_view()),
{
    let fresh = fresh_parents(visited, rows);
    let ghost fv = fresh.deep_view();
    let ghost lv = lemma_lists.deep_view();
    let mut out: Vec<OmwSynsetNode> = Vec::new();
    let mut k: usize = 0;
    while k < fresh.len()
        invariant
            fv == fresh.deep_view(),
            lv == lemma_lists.deep_view(),
            lemma_lists.len() == fresh.len(),
            k <= fresh.len(),
            out@.len() == k,
            forall|j: int| 0 <= j < k ==> node_view(#[trigger] out@[j]) == step_nodes(fv, lv)[j],
        decreases fresh.len() - k,
    {
        proof {
            assert(fv[k as int] == fresh@[k as int].deep_view());
            assert(lv[k as int] == lemma_lists@[k as int].deep_view());
        }
        let node = OmwSynsetNode {
            synset_id: fresh[k].1.clone(),
            rel_type: fresh[k].0.clone(),
            pos: fresh[k].2.clone(),
            lemmas: crate::strlist::clone_strings(&lemma_lists[k]),
        };
        let ghost before = out@;
        out.push(node);
        proof {
            assert forall|j: int| 0 <= j < k + 1 implies node_view(#[trigger] out@[j]) == step_nodes(fv, lv)[j] by {
                if j < k {
                    assert(out@[j] == before[j]);
                }
            }
        }
        k = k + 1;
    }
    assert(chain_view(out@) =~= step_nodes(fv, lv));
    out
}

/// The climb after one more step, when it had not stopped.
proof fn lemma_climb_push(
    start: Seq<char>,
    steps: Seq<(Seq<(Seq<char>, Seq<char>, Seq<char>)>, Seq<Seq<Seq<char>>>)>,
    x: (Seq<(Seq<char>, Seq<char>, Seq<char>)>, Seq<Seq<Seq<char>>>),
)
    ensures
        steps.push(x).drop_last() == steps,
        steps.push(x).last() == x,
{
    assert(steps.push(x).drop_last() =~= steps);
}

/// The hypernym chain above `synset_id`, nearest ancestors first: each step
/// adds the parents not seen before and climbs to the first of them. The
/// start is never in the chain and no synset occurs twice, so a cycle in the
/// data ends the climb; it climbs at most `HIERARCHY_MAX_DEPTH` steps. The
/// first statement run reads the parents of the start; on success the chain
/// and every statement run are those of the climb over the rows read (see
/// `climb`), which either stopped or took `HIERARCHY_MAX_DEPTH` steps.
pub fn hierarchy(db: &mut Db, synset_id: &str) -> (r: Result<
    Vec<OmwSynsetNode>,
    QueryError,
>)
    ensures
        log_extends(old(db).log().push(hypernym_entry(synset_id@)), final(db).log()),
        r matches Ok(chain) ==> {
            &&& no_repeats(seq![synset_id@] + chain_ids(chain@))
            &&& forall|i: int| 0 <= i < chain@.len() ==> no_repeats(#[trigger] chain@[i].lemmas.deep_view())
        },
        r matches Ok(chain) ==> exists|steps: Seq<(Seq<(Seq<char>, Seq<char>, Seq<char>)>, Seq<Seq<Seq<char>>>)>| {
            &&& steps.len() <= HIERARCHY_MAX_DEPTH
            &&& (#[trigger] climb(synset_id@, steps)).stopped || steps.len() == HIERARCHY_MAX_DEPTH
            &&& chain_view(chain@) == climb(synset_id@, steps).nodes
            &&& final(db).log() == old(db).log() + climb(synset_id@, steps).queries
        },
{
    let ghost start = synset_id@;
    let ghost log0 = db.log();
    let ghost first = log0.push(hypernym_entry(start));
    let ghost mut steps: Seq<(Seq<(Seq<char>, Seq<char>, Seq<char>)>, Seq<Seq<Seq<char>>>)> = Seq::empty();
    let mut chain: Vec<OmwSynsetNode> = Vec::new();
    let mut visited: Vec<String> = Vec::new();
    visited.push(synset_id.to_owned());
    let mut cursor: String = synset_id.to_owned();
    let mut step: usize = 0;
    let mut done = false;
    assert(visited.deep_view() =~= seq![synset_id@] + chain_ids(chain@));
    assert(chain_view(chain@) =~= climb(start, steps).nodes);
    assert(db.log() =~= log0 + climb(start, steps).queries);
    while step < HIERARCHY_MAX_DEPTH && !done
        invariant
            start == synset_id@,
            log0 == old(db).log(),
            first == log0.push(hypernym_entry(start)),
            step <= HIERARCHY_MAX_DEPTH,
            steps.len() == step,
            climb(start, steps).stopped == done,
            chain_view(chain@) == climb(start, steps).nodes,
            visited.deep_view() == climb(start, steps).visited,
            cursor@ == climb(start, steps).cursor,
            db.log() == log0 + climb(start, steps).queries,
            step > 0 ==> log_extends(first, db.log()),
            visited.deep_view() == seq![synset_id@] + chain_ids(chain@),
            no_repeats(visited.deep_view()),
            forall|i: int| 0 <= i < chain@.len() ==> no_repeats(#[trigger] chain@[i].lemmas.deep_view()),
        decreases HIERARCHY_MAX_DEPTH - step,
    {
        let ghost st = climb(start, steps);
        let cursor_str: &str = cursor.as_str();
        let args = [cursor_str];
        let raw = db.select_text3(HYPERNYM_SQL, &args);
        let ghost log1 = db.log();
        proof {
            assert(args@ =~= seq![cursor_str]);
            lemma_entry_one(HYPERNYM_SQL@, cursor_str);
            assert(log1 == log0 + st.queries.push(hypernym_entry(st.cursor)));
            if step == 0 {
                assert(st.queries.len() == 0);
                assert(log1 =~= first);
                lemma_log_extends_refl(first);
            } else {
                lemma_log_extends_more(first, log0 + st.queries, hypernym_entry(st.cursor));
                assert(log1 =~= (log0 + st.queries).push(hypernym_entry(st.cursor)));
            }
        }
        let raw = sql(raw)?;
        let rows = required_rows3(&raw)?;
        let fresh = fresh_parents(&visited, &rows);
        let ghost v0 = visited.deep_view();
        let ghost fv = fresh.deep_view();
        let ghost rws = rows.deep_view();
        proof {
            lemma_fresh_rows(v0, rws);
        }
        if fresh.len() == 0 {
            proof {
                lemma_climb_push(start, steps, (rws, Seq::empty()));
                steps = steps.push((rws, Seq::empty()));
                assert(db.log() =~= log0 + climb(start, steps).queries);
            }
            done = true;
        } else {
            let mut lists: Vec<Vec<String>> = Vec::new();
            let mut k: usize = 0;
            while k < fresh.len()
                invariant
                    fv == fresh.deep_view(),
                    start == synset_id@,
                    log0 == old(db).log(),
                    first == log0.push(hypernym_entry(start)),
                    log_extends(first, log1),
                    k <= fresh.len(),
                    lists@.len() == k,
                    forall|j: int| 0 <= j < k ==> no_repeats(#[trigger] lists@[j].deep_view()),
                    db.log() == log1 + parent_ids(fv).take(k as int).map_values(|id: Seq<char>| lemmas_entry(id)),
                decreases fresh.len() - k,
            {
                proof {
                    lemma_log_extends_prefix(log1, parent_ids(fv).take(k as int).map_values(|id: Seq<char>| lemmas_entry(id)));
                    lemma_log_extends_trans(first, log1, db.log());
                    assert(fv[k as int] == fresh@[k as int].deep_view());
                }
                let id_str: &str = fresh[k].1.as_str();
                let ghost lb = db.log();
                let lemmas = lemmas_of(db, id_str);
                proof {
                    lemma_entry_one(LEMMAS_SQL@, id_str);
                    lemma_log_extends_more(first, lb, lemmas_entry(id_str@));
                    assert(parent_ids(fv)[k as int] == fv[k as int].1);
                    assert(parent_ids(fv).take(k + 1) =~= parent_ids(fv).take(k as int).push(parent_ids(fv)[k as int]));
                    assert(parent_ids(fv).take(k + 1).map_values(|id: Seq<char>| lemmas_entry(id)) =~= parent_ids(
                        fv,
                    ).take(k as int).map_values(|id: Seq<char>| lemmas_entry(id)).push(lemmas_entry(id_str@)));
                    assert(db.log() =~= log1 + parent_ids(fv).take(k + 1).map_values(|id: Seq<char>| lemmas_entry(id)));
                }
                let lemmas = lemmas?;
                let ghost before = lists@;
                lists.push(lemmas);
                proof {
                    assert forall|j: int| 0 <= j < k + 1 implies no_repeats(#[trigger] lists@[j].deep_view()) by {
                        if j < k {
                            assert(lists@[j] == before[j]);
                        }
                    }
                }
                k = k + 1;
            }
            proof {
                lemma_log_extends_prefix(log1, parent_ids(fv).take(k as int).map_values(|id: Seq<char>| lemmas_entry(id)));
                lemma_log_extends_trans(first, log1, db.log());
            }
            let mut nodes = hierarchy_step(&visited, &rows, &lists);
            let ghost old_chain = chain@;
            let ghost lv = lists.deep_view();
            chain.append(&mut nodes);
            let mut m: usize = 0;
            while m < fresh.len()
                invariant
                    fv == fresh.deep_view(),
                    m <= fresh.len(),
                    visited.deep_view() == v0 + parent_ids(fv).take(m as int),
                decreases fresh.len() - m,
            {
                proof {
                    assert(fv[m as int] == fresh@[m as int].deep_view());
                    assert(parent_ids(fv)[m as int] == fv[m as int].1);
                    assert(parent_ids(fv).take(m + 1) =~= parent_ids(fv).take(m as int).push(parent_ids(fv)[m as int]));
                }
                let idc = fresh[m].1.clone();
                let ghost vb = visited.deep_view();
                visited.push(idc);
                assert(visited.deep_view() =~= vb.push(idc@));
                m = m + 1;
            }
            cursor = fresh[0].1.clone();
            proof {
                assert(parent_ids(fv).take(fv.len() as int) =~= parent_ids(fv));
                assert(fv[0] == fresh@[0].deep_view());
                let vv = visited.deep_view();
                let p = parent_ids(fv);
                assert(vv =~= v0 + p);
                assert forall|i: int, j: int| 0 <= i < j < vv.len() implies vv[i] != vv[j] by {
                    if j >= v0.len() {
                        assert(vv[j] == p[j - v0.len()]);
                        if i >= v0.len() {
                            assert(vv[i] == p[i - v0.len()]);
                        } else {
                            assert(p.contains(vv[j]));
                            assert(v0.contains(vv[i]));
                        }
                    }
                }
                assert(chain_view(chain@) =~= chain_view(old_chain) + step_nodes(fv, lv));
                assert(chain_ids(chain@) =~= chain_ids(old_chain) + p) by {
                    assert forall|j: int| 0 <= j < chain@.len() implies #[trigger] chain_ids(chain@)[j] == (chain_ids(old_chain) + p)[j] by {
                        if j >= old_chain.len() {
                            assert(chain_view(chain@)[j] == step_nodes(fv, lv)[j - old_chain.len()]);
                        } else {
                            assert(chain@[j] == old_chain[j]);
                        }
                    }
                }
                assert forall|i: int| 0 <= i < chain@.len() implies no_repeats(#[trigger] chain@[i].lemmas.deep_view()) by {
                    if i >= old_chain.len() {
                        assert(chain_view(chain@)[i] == step_nodes(fv, lv)[i - old_chain.len()]);
                    } else {
                        assert(chain@[i] == old_chain[i]);
                    }
                }
                lemma_climb_push(start, steps, (rws, lv));
                steps = steps.push((rws, lv));
                assert(db.log() =~= log0 + climb(start, steps).queries);
            }
        }
        step = step + 1;
    }
    proof {
        assert(climb(start, steps).stopped || steps.len() == HIERARCHY_MAX_DEPTH);
    }
    Ok(chain)
}

/// The antonyms of `word` given the antonym-pair rows and the sense-relation
/// lemmas read: those of the pairs, or, when there is none, those of the
/// lemmas, tagged `omw_sense_relations` and the normalized language.
pub open spec fn antonyms_of(
    word: Seq<char>,
    language: Seq<char>,
    rows: Seq<(Seq<char>, Seq<char>, Seq<char>, Seq<char>)>,
    lemmas: Seq<Seq<char>>,
) -> Seq<(Seq<char>, Seq<char>, Seq<char>, Seq<char>)> {
    let p = pair_antonyms(word, rows);
    if p.len() > 0 {
        p
    } else {
        lemmas.map_values(
            |l: Seq<char>| (word, l, "omw_sense_relations"@, omw_language_spec(language)),
        )
    }
}

/// The antonyms of `word` from the antonym-pair rows and the sense-relation
/// lemmas read (see `antonyms_of`).
pub fn antonyms_from_rows(
    word: &str,
    language: &str,
    rows: &Vec<(String, String, String, String)>,
    lemmas: &Vec<String>,
) -> (r: Vec<OmwAntonymResult>)
    ensures
        antonym_views(r@) == antonyms_of(word@, language@, rows.deep_view(), lemmas.deep_view()),
        forall|i: int| 0 <= i < r@.len() ==> (#[trigger] r@[i]).word@ == word@,
{
    let from_pairs = antonyms_from_pairs(word, rows);
    if from_pairs.len() > 0 {
        from_pairs
    } else {
        antonyms_from_senses(word, normalize_omw_language(language), lemmas)
    }
}

/// The statement that reads the antonym pairs holding `word`.
pub open spec fn antonym_pairs_entry(word: Seq<char>) -> (Seq<char>, Seq<Seq<char>>) {
    (ANTONYM_PAIRS_SQL@, seq![word])
}

/// The statement that reads the OMW sense-relation antonyms of `word`.
pub open spec fn antonym_senses_entry(word: Seq<char>) -> (Seq<char>, Seq<Seq<char>>) {
    (ANTONYM_SENSES_SQL@, seq![word])
}

/// The antonyms of `word`: from the antonym pairs that hold it first (with
/// each pair's source and language); only when there is none, from OMW sense
/// relations (at most 50, tagged `omw_sense_relations` and the normalized
/// language). The pairs are read first, with the word as parameter; the
/// sense relations are read, with the word too, only when no pair was found.
pub fn antonyms(db: &mut Db, word: &str, language: &str) -> (r: Result<
    Vec<OmwAntonymResult>,
    QueryError,
>)
    ensures
        log_extends(old(db).log().push(antonym_pairs_entry(word@)), final(db).log()),
        r matches Ok(v) ==> forall|i: int| 0 <= i < v@.len() ==> (#[trigger] v@[i]).word@ == word@,
        r matches Ok(v) ==> exists|
            rows: Seq<(Seq<char>, Seq<char>, Seq<char>, Seq<char>)>,
            lemmas: Seq<Seq<char>>,
        | {
            &&& antonym_views(v@) == #[trigger] antonyms_of(word@, language@, rows, lemmas)
            &&& rows.len() > 0 ==> lemmas.len() == 0 && final(db).log() == old(db).log().push(antonym_pairs_entry(word@))
            &&& rows.len() == 0 ==> final(db).log() == old(db).log().push(antonym_pairs_entry(word@)).push(
                antonym_senses_entry(word@),
            )
        },
{
    let args = [word];
    let raw = db.select_text4(ANTONYM_PAIRS_SQL, &args);
    let ghost log1 = db.log();
    proof {
        assert(args@ =~= seq![word]);
        lemma_entry_one(ANTONYM_PAIRS_SQL@, word);
        lemma_log_extends_refl(log1);
    }
    let raw = sql(raw)?;
    let rows = required_rows4(&raw)?;
    if rows.len() > 0 {
        let none: Vec<String> = Vec::new();
        let res = antonyms_from_rows(word, language, &rows, &none);
        assert(none.deep_view() =~= Seq::<Seq<char>>::empty());
        assert(antonym_views(res@) == antonyms_of(word@, language@, rows.deep_view(), none.deep_view()));
        return Ok(res);
    }
    let raw_senses = db.select_text(ANTONYM_SENSES_SQL, &args);
    proof {
        lemma_entry_one(ANTONYM_SENSES_SQL@, word);
        lemma_log_extends_more(log1, log1, antonym_senses_entry(word@));
    }
    let raw_senses = sql(raw_senses)?;
    let lemmas = required_rows1(&raw_senses)?;
    let res = antonyms_from_rows(word, language, &rows, &lemmas);
    assert(antonym_views(res@) == antonyms_of(word@, language@, rows.deep_view(), lemmas.deep_view()));
    Ok(res)
}

/// The first non-empty definition among the synsets of `word`: the
/// statements run are those of `lookup`.
pub fn describe(db: &mut Db, word: &str, language: &str) -> (r: Result<
    Option<String>,
    QueryError,
>)
    ensures
        log_extends(old(db).log().push(lookup_entry(word@, language@)), final(db).log()),
        r matches Ok(Some(d)) ==> trim(d@).len() > 0,
        r matches Ok(d) ==> exists|results: Seq<OmwSynsetResult>|
            d.deep_view() == first_definition_spec(#[trigger] definitions(results))
                && final(db).log() == old(db).log().push(lookup_entry(word@, language@)) + lemma_entries(results),
{
    let results = lookup(db, word, language)?;
    let d = first_definition(&results);
    proof {
        crate::omw::lemma_first_definition_nonempty(definitions(results@));
    }
    assert(d.deep_view() == first_definition_spec(definitions(results@)));
    Ok(d)
}

/// The codes after adding the parent codes of each readable row in order
/// (see `add_parent_codes`); unreadable rows are skipped.
pub open spec fn add_row_parents(codes: Seq<Seq<char>>, rows: Seq<Option<Seq<char>>>) -> Seq<Seq<char>>
    decreases rows.len(),
{
    if rows.len() == 0 {
        codes
    } else {
        let prev = add_row_parents(codes, rows.drop_last());
        match rows.last() {
            Some(raw) => push_all_unique(prev, string_items(raw)),
            None => prev,
        }
    }
}

/// Adds the parent codes of each readable row in order (see
/// `add_row_parents`).
pub fn add_row_parents_exec(parents: &mut Vec<String>, rows: &Vec<Option<String>>)
    ensures
        final(parents).deep_view() == add_row_parents(old(parents).deep_view(), rows.deep_view()),
{
    let ghost rv = rows.deep_view();
    let ghost start = parents.deep_view();
    let mut i: usize = 0;
    while i < rows.len()
        invariant
            rv == rows.deep_view(),
            i <= rows.len(),
            parents.deep_view() == add_row_parents(start, rv.take(i as int)),
        decreases rows.len() - i,
    {
        proof {
            assert(rv.take(i + 1).drop_last() =~= rv.take(i as int));
            assert(rv.take(i + 1).last() == rv[i as int]);
        }
        if let Some(raw) = &rows[i] {
            add_parent_codes(parents, raw.as_str());
        }
        i = i + 1;
    }
    assert(rv.take(rows.len() as int) =~= rv);
}

/// The statement that reads the parent codes stored for the tag `code`.
pub open spec fn parent_codes_entry(code: Seq<char>) -> (Seq<char>, Seq<Seq<char>>) {
    (PARENT_CODES_SQL@, seq![code])
}

/// Reads the parent codes stored for the tag `code`, one row each (a row
/// that cannot be read as text is `None`).
fn parent_rows_of_code(db: &mut Db, code: &str) -> (r: Result<Vec<Option<String>>, QueryError>)
    ensures
        final(db).log() == old(db).log().push(parent_codes_entry(code@)),
{
    let args = [code];
    let rows = db.select_text_lenient(PARENT_CODES_SQL, &args);
    proof {
        assert(args@ =~= seq![code]);
        lemma_entry_one(PARENT_CODES_SQL@, code);
    }
    sql(rows)
}

/// `x` added to `s` unless already there.
pub open spec fn push_one(s: Seq<Seq<char>>, x: Seq<char>) -> Seq<Seq<char>> {
    if s.contains(x) {
        s
    } else {
        s.push(x)
    }
}

/// The own codes and parent codes of the `file_tags` rows `(code,
/// parent_codes)` matching a tag.
pub open spec fn self_stage(rows: Seq<(Seq<char>, Seq<char>)>) -> (Seq<Seq<char>>, Seq<Seq<char>>)
    decreases rows.len(),
{
    if rows.len() == 0 {
        (Seq::empty(), Seq::empty())
    } else {
        let (c, p) = self_stage(rows.drop_last());
        (push_one(c, rows.last().0), push_all_unique(p, string_items(rows.last().1)))
    }
}

/// The codes and parents after the alias-table codes: each readable code
/// is added with the parent codes of its own rows (`parent_rows`, aligned).
pub open spec fn alias_stage(
    c: Seq<Seq<char>>,
    p: Seq<Seq<char>>,
    codes: Seq<Option<Seq<char>>>,
    parent_rows: Seq<Seq<Option<Seq<char>>>>,
) -> (Seq<Seq<char>>, Seq<Seq<char>>)
    decreases codes.len(),
{
    if codes.len() == 0 {
        (c, p)
    } else {
        let (c0, p0) = alias_stage(c, p, codes.drop_last(), parent_rows.drop_last());
        match codes.last() {
            Some(code) => (push_one(c0, code), add_row_parents(p0, parent_rows.last())),
            None => (c0, p0),
        }
    }
}

/// Whether some code is an OMW concept code.
pub open spec fn has_omw(codes: Seq<Seq<char>>) -> bool {
    exists|i: int| 0 <= i < codes.len() && "omw."@.is_prefix_of(#[trigger] codes[i])
}

/// The tag codes and parent codes of a mapping request: the matching
/// `file_tags` rows; when they give no code, the alias-table codes (when
/// the table exists, `alias` is `Some`); when still none, the dictionary
/// code of the trimmed tag, with the parents of its rows.
pub open spec fn mapping_codes_spec(
    dynamic: Map<Seq<char>, Seq<char>>,
    tag: Seq<char>,
    self_rows: Seq<(Seq<char>, Seq<char>)>,
    alias: Option<Seq<Option<Seq<char>>>>,
    alias_parents: Seq<Seq<Option<Seq<char>>>>,
    builtin_parents: Seq<Option<Seq<char>>>,
) -> (Seq<Seq<char>>, Seq<Seq<char>>) {
    let (c1, p1) = self_stage(self_rows);
    let (c2, p2) = if c1.len() == 0 && alias is Some {
        alias_stage(c1, p1, alias->Some_0, alias_parents)
    } else {
        (c1, p1)
    };
    if c2.len() == 0 {
        match builtin_code_spec(dynamic, trim(tag)) {
            Some(code) => (seq![code], add_row_parents(p2, builtin_parents)),
            None => (c2, p2),
        }
    } else {
        (c2, p2)
    }
}

/// The answer of a mapping request from the rows read: with an `omw.*`
/// parent, the builtin tags of `reverse_rows` that are not the tag itself
/// (see `sibling_tags`); otherwise none.
pub open spec fn mapping_spec(
    dynamic: Map<Seq<char>, Seq<char>>,
    tag: Seq<char>,
    self_rows: Seq<(Seq<char>, Seq<char>)>,
    alias: Option<Seq<Option<Seq<char>>>>,
    alias_parents: Seq<Seq<Option<Seq<char>>>>,
    builtin_parents: Seq<Option<Seq<char>>>,
    reverse_rows: Seq<(Seq<char>, Seq<char>)>,
) -> Seq<(Seq<char>, Seq<char>)> {
    let (codes, parents) = mapping_codes_spec(dynamic, tag, self_rows, alias, alias_parents, builtin_parents);
    if has_omw(parents) {
        sibling_tags(codes, reverse_rows)
    } else {
        Seq::empty()
    }
}

/// The parent-code statements for the readable alias codes, in order.
pub open spec fn alias_parent_entries(codes: Seq<Option<Seq<char>>>) -> Seq<(Seq<char>, Seq<Seq<char>>)>
    decreases codes.len(),
{
    if codes.len() == 0 {
        Seq::empty()
    } else {
        let prev = alias_parent_entries(codes.drop_last());
        match codes.last() {
            Some(c) => prev.push(parent_codes_entry(c)),
            None => prev,
        }
    }
}

/// The statements of a mapping request, in order, given the rows read: the
/// lookup of the trimmed tag; when it gives no code, whether the alias
/// table exists and, when it does (`alias` is `Some`), the alias codes of
/// the trimmed tag and the parent codes of each readable one; when still no
/// code, the parent codes of the tag's dictionary code, if it has one; and,
/// with an `omw.*` parent, the builtin tags under the parents (their JSON
/// list as parameter).
pub open spec fn mapping_queries(
    dynamic: Map<Seq<char>, Seq<char>>,
    tag: Seq<char>,
    self_rows: Seq<(Seq<char>, Seq<char>)>,
    alias: Option<Seq<Option<Seq<char>>>>,
    alias_parents: Seq<Seq<Option<Seq<char>>>>,
    builtin_parents: Seq<Option<Seq<char>>>,
) -> Seq<(Seq<char>, Seq<Seq<char>>)> {
    let (c1, p1) = self_stage(self_rows);
    let looked_up = seq![mapping_self_entry(tag)];
    let q2 = if c1.len() == 0 {
        looked_up.push((ALIAS_TABLE_SQL@, Seq::empty())) + match alias {
            Some(codes) => seq![(ALIAS_CODES_SQL@, seq![trim(tag)])] + alias_parent_entries(codes),
            None => Seq::empty(),
        }
    } else {
        looked_up
    };
    let (c2, p2) = if c1.len() == 0 && alias is Some {
        alias_stage(c1, p1, alias->Some_0, alias_parents)
    } else {
        (c1, p1)
    };
    let q3 = if c2.len() == 0 {
        match builtin_code_spec(dynamic, trim(tag)) {
            Some(code) => q2.push(parent_codes_entry(code)),
            None => q2,
        }
    } else {
        q2
    };
    let parents = mapping_codes_spec(dynamic, tag, self_rows, alias, alias_parents, builtin_parents).1;
    if has_omw(parents) {
        q3.push((MAPPING_REVERSE_SQL@, seq![json_text_of_strings(parents)]))
    } else {
        q3
    }
}

fn self_stage_exec(rows: &Vec<(String, String)>) -> (r: (Vec<String>, Vec<String>))
    ensures
        (r.0.deep_view(), r.1.deep_view()) == self_stage(rows.deep_view()),
{
    let ghost rv = rows.deep_view();
    let mut codes: Vec<String> = Vec::new();
    let mut parents: Vec<String> = Vec::new();
    let mut i: usize = 0;
    while i < rows.len()
        invariant
            rv == rows.deep_view(),
            i <= rows.len(),
            (codes.deep_view(), parents.deep_view()) == self_stage(rv.take(i as int)),
        decreases rows.len() - i,
    {
        proof {
            assert(rv.take(i + 1).drop_last() =~= rv.take(i as int));
            assert(rv.take(i + 1).last() == rv[i as int]);
        }
        push_unique(&mut codes, rows[i].0.clone());
        add_parent_codes(&mut parents, rows[i].1.as_str());
        i = i + 1;
    }
    assert(rv.take(rows.len() as int) =~= rv);
    (codes, parents)
}

fn alias_stage_exec(
    codes: &mut Vec<String>,
    parents: &mut Vec<String>,
    alias: &Vec<Option<String>>,
    alias_parents: &Vec<Vec<Option<String>>>,
)
    requires
        alias_parents.len() == alias.len(),
    ensures
        (final(codes).deep_view(), final(parents).deep_view()) == alias_stage(
            old(codes).deep_view(),
            old(parents).deep_view(),
            alias.deep_view(),
            alias_parents.deep_view(),
        ),
{
    let ghost av = alias.deep_view();
    let ghost pv = alias_parents.deep_view();
    let ghost c0 = codes.deep_view();
    let ghost p0 = parents.deep_view();
    let mut j: usize = 0;
    while j < alias.len()
        invariant
            av == alias.deep_view(),
            pv == alias_parents.deep_view(),
            alias_parents.len() == alias.len(),
            j <= alias.len(),
            (codes.deep_view(), parents.deep_view()) == alias_stage(c0, p0, av.take(j as int), pv.take(j as int)),
        decreases alias.len() - j,
    {
        proof {
            assert(av.take(j + 1).drop_last() =~= av.take(j as int));
            assert(pv.take(j + 1).drop_last() =~= pv.take(j as int));
            assert(av.take(j + 1).last() == av[j as int]);
            assert(pv.take(j + 1).last() == pv[j as int]);
            assert(pv[j as int] == alias_parents@[j as int].deep_view());
        }
        if let Some(code) = &alias[j] {
            push_unique(codes, code.clone());
            add_row_parents_exec(parents, &alias_parents[j]);
        }
        j = j + 1;
    }
    assert(av.take(alias.len() as int) =~= av);
    assert(pv.take(alias.len() as int) =~= pv);
}

/// The builtin tags that share an OMW parent concept with a tag, from the
/// rows read for it (see `mapping_spec`), each at match level 1.
pub fn mapping_from_rows(
    registry: &TagRegistry,
    tag_name: &str,
    self_rows: &Vec<(String, String)>,
    alias: &Option<Vec<Option<String>>>,
    alias_parents: &Vec<Vec<Option<String>>>,
    builtin_parents: &Vec<Option<String>>,
    reverse_rows: &Vec<(String, String)>,
) -> (r: Vec<OmwTagResult>)
    requires
        registry.wf(),
        alias matches Some(a) ==> alias_parents.len() == a.len(),
    ensures
        tag_result_views(r@) == mapping_spec(
            registry.dynamic_aliases(),
            tag_name@,
            self_rows.deep_view(),
            alias.deep_view(),
            alias_parents.deep_view(),
            builtin_parents.deep_view(),
            reverse_rows.deep_view(),
        ),
        forall|i: int| 0 <= i < r@.len() ==> (#[trigger] r@[i]).match_level == 1,
{
    let clean = trim_str(tag_name);
    let (mut codes, mut parents) = self_stage_exec(self_rows);
    if codes.len() == 0 {
        if let Some(list) = alias {
            alias_stage_exec(&mut codes, &mut parents, list, alias_parents);
        }
    }
    if codes.len() == 0 {
        if let Some(code) = builtin_tag_code(registry, clean.as_str()) {
            codes.push(code.to_owned());
            add_row_parents_exec(&mut parents, builtin_parents);
            proof {
                assert(codes.deep_view() =~= seq![code@]);
            }
        }
    }
    let ghost cp = mapping_codes_spec(
        registry.dynamic_aliases(),
        tag_name@,
        self_rows.deep_view(),
        alias.deep_view(),
        alias_parents.deep_view(),
        builtin_parents.deep_view(),
    );
    assert(codes.deep_view() == cp.0 && parents.deep_view() == cp.1);
    let omw = has_omw_code(&parents);
    proof {
        let pv = parents.deep_view();
        if omw {
            let i = choose|i: int| 0 <= i < parents@.len() && "omw."@.is_prefix_of(#[trigger] parents@[i]@);
            assert(pv[i] == parents@[i]@);
        }
        if has_omw(pv) {
            let i = choose|i: int| 0 <= i < pv.len() && "omw."@.is_prefix_of(#[trigger] pv[i]);
            assert(pv[i] == parents@[i]@);
        }
    }
    if !omw {
        let v: Vec<OmwTagResult> = Vec::new();
        assert(tag_result_views(v@) =~= Seq::<(Seq<char>, Seq<char>)>::empty());
        v
    } else {
        siblings_excluding(&codes, reverse_rows)
    }
}

/// The statement that looks a tag up in `file_tags` by name or code: the
/// trimmed tag is its parameter.
pub open spec fn mapping_self_entry(tag_name: Seq<char>) -> (Seq<char>, Seq<Seq<char>>) {
    (MAPPING_SELF_SQL@, seq![trim(tag_name)])
}

/// The builtin tags that share an OMW parent concept with `tag_name`.
///
/// The tag is found by name or code in `file_tags`, else through the alias
/// table `tag_aliases` (when it exists), else through the tag dictionary;
/// its parent codes are gathered. Without an `omw.*` parent there is nothing
/// to map. Otherwise every `builtin.*` tag whose parents include one of the
/// tag's `omw.*` parents is returned, ordered by code, except the tag itself
/// (see `mapping_from_rows`, which gives the answer from the rows read).
/// The first statement run looks the trimmed tag up by name or code.
pub fn mapping(db: &mut Db, registry: &TagRegistry, tag_name: &str) -> (r: Result<
    Vec<OmwTagResult>,
    QueryError,
>)
    requires
        registry.wf(),
    ensures
        log_extends(old(db).log().push(mapping_self_entry(tag_name@)), final(db).log()),
        r matches Ok(v) ==> forall|i: int| 0 <= i < v@.len() ==> (#[trigger] v@[i]).match_level == 1,
        r matches Ok(v) ==> mapping_of_some_rows(
            registry.dynamic_aliases(),
            tag_name@,
            tag_result_views(v@),
            final(db).log().skip(old(db).log().len() as int),
        ),
{
    let ghost l0 = db.log();
    let ghost dynamic = registry.dynamic_aliases();
    let clean = trim_str(tag_name);
    let clean_str: &str = clean.as_str();
    let args = [clean_str];
    let raw = db.select_text2(MAPPING_SELF_SQL, &args);
    let ghost mut q: Seq<(Seq<char>, Seq<Seq<char>>)> = seq![mapping_self_entry(tag_name@)];
    proof {
        assert(args@ =~= seq![clean_str]);
        lemma_entry_one(MAPPING_SELF_SQL@, clean_str);
        assert(db.log() =~= l0 + q);
        lemma_log_suffix(l0, q);
    }
    let raw = sql(raw)?;
    let rows = required_rows2(&raw)?;
    let (mut codes, mut parents) = self_stage_exec(&rows);
    let mut alias: Option<Vec<Option<String>>> = None;
    let mut alias_parents: Vec<Vec<Option<String>>> = Vec::new();
    if codes.len() == 0 {
        let none: [&str; 0] = [];
        let has_alias_table = db.select_exists(ALIAS_TABLE_SQL, &none);
        proof {
            assert(none@ =~= Seq::<&str>::empty());
            lemma_entry_none(ALIAS_TABLE_SQL@);
            q = q.push((ALIAS_TABLE_SQL@, Seq::empty()));
            assert(db.log() =~= l0 + q);
        }
        if has_alias_table {
            let alias_codes = db.select_text_lenient(ALIAS_CODES_SQL, &args);
            proof {
                q = q.push((ALIAS_CODES_SQL@, seq![trim(tag_name@)]));
                assert(db.log() =~= l0 + q);
                lemma_log_suffix(l0, q);
            }
            let alias_codes = sql(alias_codes)?;
            let ghost qa = q;
            let ghost av = alias_codes.deep_view();
            let mut j: usize = 0;
            while j < alias_codes.len()
                invariant
                    av == alias_codes.deep_view(),
                    j <= alias_codes.len(),
                    alias_parents.len() == j,
                    qa.len() > 0,
                    qa[0] == mapping_self_entry(tag_name@),
                    l0 == old(db).log(),
                    db.log() == l0 + (qa + alias_parent_entries(av.take(j as int))),
                decreases alias_codes.len() - j,
            {
                proof {
                    assert(av.take(j + 1).drop_last() =~= av.take(j as int));
                    assert(av.take(j + 1).last() == av[j as int]);
                    assert(av[j as int] == alias_codes@[j as int].deep_view());
                }
                if let Some(code) = &alias_codes[j] {
                    let ghost lb = db.log();
                    let prs = parent_rows_of_code(db, code.as_str());
                    proof {
                        let qn = qa + alias_parent_entries(av.take(j + 1));
                        assert(alias_parent_entries(av.take(j + 1)) == alias_parent_entries(av.take(j as int)).push(parent_codes_entry(code@)));
                        assert(db.log() =~= l0 + qn);
                        assert(qn[0] == qa[0]);
                        lemma_log_suffix(l0, qn);
                    }
                    let prs = prs?;
                    alias_parents.push(prs);
                } else {
                    proof {
                        assert(alias_parent_entries(av.take(j + 1)) == alias_parent_entries(av.take(j as int)));
                    }
                    alias_parents.push(Vec::new());
                }
                j = j + 1;
            }
            proof {
                assert(av.take(alias_codes.len() as int) =~= av);
                q = qa + alias_parent_entries(av);
            }
            alias_stage_exec(&mut codes, &mut parents, &alias_codes, &alias_parents);
            alias = Some(alias_codes);
        }
    }
    let mut builtin_parents: Vec<Option<String>> = Vec::new();
    if codes.len() == 0 {
        if let Some(code) = builtin_tag_code(registry, clean.as_str()) {
            codes.push(code.to_owned());
            let prs = parent_rows_of_code(db, code);
            proof {
                q = q.push(parent_codes_entry(code@));
                assert(db.log() =~= l0 + q);
                lemma_log_suffix(l0, q);
            }
            builtin_parents = prs?;
            add_row_parents_exec(&mut parents, &builtin_parents);
            proof {
                assert(codes.deep_view() =~= seq![code@]);
            }
        }
    }
    let ghost cp = mapping_codes_spec(
        dynamic,
        tag_name@,
        rows.deep_view(),
        alias.deep_view(),
        alias_parents.deep_view(),
        builtin_parents.deep_view(),
    );
    assert(codes.deep_view() == cp.0 && parents.deep_view() == cp.1);
    let omw = has_omw_code(&parents);
    proof {
        let pv = parents.deep_view();
        if omw {
            let i = choose|i: int| 0 <= i < parents@.len() && "omw."@.is_prefix_of(#[trigger] parents@[i]@);
            assert(pv[i] == parents@[i]@);
        }
        if has_omw(pv) {
            let i = choose|i: int| 0 <= i < pv.len() && "omw."@.is_prefix_of(#[trigger] pv[i]);
            assert(pv[i] == parents@[i]@);
        }
        assert(q == mapping_queries(
            dynamic,
            tag_name@,
            rows.deep_view(),
            alias.deep_view(),
            alias_parents.deep_view(),
            builtin_parents.deep_view(),
        ).take(q.len() as int));
    }
    let mut reverse: Vec<(String, String)> = Vec::new();
    if omw {
        let parents_json = match json_strings_text(&parents) {
            Some(t) => t,
            None => {
                return Err(QueryError::Json);
            },
        };
        let json_str: &str = parents_json.as_str();
        let rev_args = [json_str];
        let raw_rev = db.select_text2(MAPPING_REVERSE_SQL, &rev_args);
        proof {
            assert(rev_args@ =~= seq![json_str]);
            lemma_entry_one(MAPPING_REVERSE_SQL@, json_str);
            q = q.push((MAPPING_REVERSE_SQL@, seq![json_text_of_strings(parents.deep_view())]));
            assert(db.log() =~= l0 + q);
            lemma_log_suffix(l0, q);
        }
        let raw_rev = sql(raw_rev)?;
        reverse = required_rows2(&raw_rev)?;
    }
    let r = mapping_from_rows(registry, tag_name, &rows, &alias, &alias_parents, &builtin_parents, &reverse);
    proof {
        let mq = mapping_queries(
            dynamic,
            tag_name@,
            rows.deep_view(),
            alias.deep_view(),
            alias_parents.deep_view(),
            builtin_parents.deep_view(),
        );
        assert(q =~= mq);
        lemma_log_suffix(l0, q);
        assert(mapping_spec(
            dynamic,
            tag_name@,
            rows.deep_view(),
            alias.deep_view(),
            alias_parents.deep_view(),
            builtin_parents.deep_view(),
            reverse.deep_view(),
        ) == tag_result_views(r@));
    }
    Ok(r)
}

/// The answer is that of some rows read for the tag (see `mapping_spec`),
/// and `q` holds the statements run to read them, in order (see
/// `mapping_queries`).
pub open spec fn mapping_of_some_rows(
    dynamic: Map<Seq<char>, Seq<char>>,
    tag: Seq<char>,
    v: Seq<(Seq<char>, Seq<char>)>,
    q: Seq<(Seq<char>, Seq<Seq<char>>)>,
) -> bool {
    exists|
        self_rows: Seq<(Seq<char>, Seq<char>)>,
        alias: Option<Seq<Option<Seq<char>>>>,
        alias_parents: Seq<Seq<Option<Seq<char>>>>,
        builtin_parents: Seq<Option<Seq<char>>>,
        reverse_rows: Seq<(Seq<char>, Seq<char>)>,
    | #![trigger mapping_spec(dynamic, tag, self_rows, alias, alias_parents, builtin_parents, reverse_rows)]
        v == mapping_spec(dynamic, tag, self_rows, alias, alias_parents, builtin_parents, reverse_rows)
            && q == mapping_queries(dynamic, tag, self_rows, alias, alias_parents, builtin_parents)
}

/// A tree node read from a (code, name, parent codes) row.
pub open spec fn node_of_row(n: TreeNode, row: (Seq<char>, Seq<char>, Seq<char>)) -> bool {
    &&& n.code@ == row.0
    &&& n.name@ == row.1
    &&& n.parent_codes.deep_view() == string_list_or_empty_spec(row.2)
    &&& n.source@ == code_source_spec(row.0)
    &&& n.depth == 0
}

/// The nodes are those of the rows, one each, in order.
pub open spec fn nodes_of_rows(nodes: Seq<TreeNode>, rows: Seq<(Seq<char>, Seq<char>, Seq<char>)>) -> bool {
    nodes.len() == rows.len() && forall|k: int| 0 <= k < nodes.len() ==> node_of_row(#[trigger] nodes[k], rows[k])
}

/// The nodes are those of some rows.
pub open spec fn nodes_of_some_rows(nodes: Seq<TreeNode>) -> bool {
    exists|rows: Seq<(Seq<char>, Seq<char>, Seq<char>)>| #[trigger] nodes_of_rows(nodes, rows)
}

/// The tree nodes of (code, name, parent codes) rows, one each, in order
/// (see `node_of_row`).
pub fn tree_nodes(rows: &Vec<(String, String, String)>) -> (r: Vec<TreeNode>)
    ensures
        nodes_of_rows(r@, rows.deep_view()),
        forall|i: int|
            0 <= i < r@.len() ==> (#[trigger] r@[i]).source@ == code_source_spec(r@[i].code@) && r@[i].depth == 0,
{
    let ghost rv = rows.deep_view();
    let mut nodes: Vec<TreeNode> = Vec::new();
    let mut i: usize = 0;
    while i < rows.len()
        invariant
            rv == rows.deep_view(),
            i <= rows.len(),
            nodes_of_rows(nodes@, rv.take(i as int)),
            forall|k: int|
                0 <= k < nodes@.len() ==> (#[trigger] nodes@[k]).source@ == code_source_spec(nodes@[k].code@)
                    && nodes@[k].depth == 0,
        decreases rows.len() - i,
    {
        let parents = string_list_or_empty(rows[i].2.as_str());
        let node = TreeNode::from_row(rows[i].0.clone(), rows[i].1.clone(), parents);
        let ghost before = nodes@;
        nodes.push(node);
        proof {
            assert(rv[i as int] == rows@[i as int].deep_view());
            assert(nodes@ =~= before.push(node));
            assert forall|k: int| 0 <= k < nodes@.len() implies node_of_row(
                #[trigger] nodes@[k],
                rv.take(i + 1)[k],
            ) by {
                if k < i {
                    assert(rv.take(i + 1)[k] == rv.take(i as int)[k]);
                }
            }
        }
        i = i + 1;
    }
    assert(rv.take(rows.len() as int) =~= rv);
    assert(nodes_of_rows(nodes@, rv));
    assert(nodes_of_some_rows(nodes@));
    nodes
}

/// The tags whose parent codes hold `root`, ordered by code, as tree nodes
/// (one layer; `depth` is accepted for later use and not read).
pub fn tree(db: &mut Db, root: &str, depth: i64) -> (r: Result<
    Vec<TreeNode>,
    QueryError,
>)
    ensures
        final(db).log() == old(db).log().push((TREE_SQL@, seq![root@])),
        r matches Ok(v) ==> forall|i: int|
            0 <= i < v@.len() ==> (#[trigger] v@[i]).source@ == code_source_spec(v@[i].code@) && v@[i].depth
                == 0,
        r matches Ok(v) ==> nodes_of_some_rows(v@),
{
    let args = [root];
    let raw = db.select_text3(TREE_SQL, &args);
    proof {
        assert(args@ =~= seq![root]);
        lemma_entry_one(TREE_SQL@, root);
    }
    let raw = sql(raw)?;
    let rows = required_rows3(&raw)?;
    Ok(tree_nodes(&rows))
}

/// `s` holds the statistics of some referenced-code, synset and hypernym rows.
pub open spec fn stats_of_some_rows(s: UnmappedStats) -> bool {
    exists|
        referenced: Seq<Option<Seq<char>>>,
        synsets: Seq<Option<(Seq<char>, Option<Seq<char>>)>>,
        relations: Seq<Option<(Seq<char>, Seq<char>)>>,
    | #![trigger stats_of(s, referenced, synsets, relations)] stats_of(s, referenced, synsets, relations)
}

/// The statistics of the synsets that no tag uses as a parent (see
/// `unmapped_stats_from`), over the rows the database returns; rows that
/// cannot be read are skipped.
pub fn unmapped_stats(db: &mut Db) -> (r: Result<UnmappedStats, QueryError>)
    ensures
        log_extends(old(db).log().push((REFERENCED_CODES_SQL@, Seq::empty())), final(db).log()),
        r matches Ok(s) ==> final(db).log() == old(db).log().push((REFERENCED_CODES_SQL@, Seq::empty())).push(
            (SYNSETS_SQL@, Seq::empty()),
        ).push((HYPERNYM_EDGES_SQL@, Seq::empty())),
        r matches Ok(s) ==> stats_of_some_rows(s),
{
    let none: [&str; 0] = [];
    let referenced = db.select_text_lenient(REFERENCED_CODES_SQL, &none);
    let ghost log1 = db.log();
    proof {
        assert(none@ =~= Seq::<&str>::empty());
        lemma_entry_none(REFERENCED_CODES_SQL@);
        lemma_entry_none(SYNSETS_SQL@);
        lemma_entry_none(HYPERNYM_EDGES_SQL@);
        lemma_log_extends_refl(log1);
    }
    let referenced = sql(referenced)?;
    let synsets = db.select_text_opt_lenient(SYNSETS_SQL);
    let ghost log2 = db.log();
    proof {
        lemma_log_extends_more(log1, log1, (SYNSETS_SQL@, Seq::empty()));
    }
    let synsets = sql(synsets)?;
    let relations = db.select_text2_lenient(HYPERNYM_EDGES_SQL);
    proof {
        lemma_log_extends_more(log1, log2, (HYPERNYM_EDGES_SQL@, Seq::empty()));
    }
    let relations = sql(relations)?;
    if synsets.len() as u64 > i64::MAX as u64 {
        return Err(QueryError::TooManyRows);
    }
    let stats = unmapped_stats_from(&referenced, &synsets, &relations);
    proof {
        let (a, b, c) = (referenced.deep_view(), synsets.deep_view(), relations.deep_view());
        assert(stats_of(stats, a, b, c));
        assert(stats_of_some_rows(stats));
    }
    Ok(stats)
}

} // verus!
