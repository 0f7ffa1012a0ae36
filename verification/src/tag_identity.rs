//! Cross-language identity of controlled tags.
//!
//! Every alias of a concept (Chinese, English, model output) resolves to one
//! code. Builtin concepts are coded `builtin.{en_slug}` from their English
//! canonical name; a runtime alias dictionary (loaded from the semantic pack)
//! takes precedence over the builtin table, and within it an `omw.*` code is
//! never displaced by a `builtin.*` code for the same lemma. Tags that resolve
//! nowhere get an `_ext.{slug}.{hash8}` code.
use vstd::prelude::*;
pub use crate::slug::{derive_ext_tag_code, en_builtin_code};
use crate::slug::{en_builtin_code_spec, ext_tag_code_spec};
use crate::tag_table::{builtin_alias_pairs, builtin_alias_table};
use crate::text::{chars_eq, chars_of, replace_char, replace_char_exec, starts_with_str, string_of, trim, trim_chars};
use crate::unicode::{lowercase_chars, normalize_lemma_chars, normalize_lemma_spec, unicode_lowercase};

verus! {

/// One row of the builtin alias table with its derived keys and code.
pub struct BuiltinEntry {
    alias: String,
    en: String,
    code: String,
    alias_key: Vec<char>,
    en_key: Vec<char>,
}

/// One runtime alias: a normalized lemma and the code it resolves to.
pub struct DynamicAlias {
    key: Vec<char>,
    code: String,
}

/// The tag dictionaries: the builtin alias table (with derived codes) and
/// the runtime alias dictionary.
pub struct TagRegistry {
    builtin: Vec<BuiltinEntry>,
    dynamic: Vec<DynamicAlias>,
}

/// Whether `s` starts with `omw.`.
pub open spec fn is_omw_code(s: Seq<char>) -> bool {
    "omw."@.is_prefix_of(s)
}

/// Whether `s` starts with `builtin.`.
pub open spec fn is_builtin_code(s: Seq<char>) -> bool {
    "builtin."@.is_prefix_of(s)
}

/// Whether `s` starts with `_ext.`.
pub open spec fn is_ext_code(s: Seq<char>) -> bool {
    "_ext."@.is_prefix_of(s)
}

/// Loading one `(lemma, code)` pair into the runtime dictionary: empty
/// lemmas are skipped, an `omw.*` code is kept against an incoming
/// `builtin.*` code, and otherwise the later pair wins.
pub open spec fn alias_step(
    m: Map<Seq<char>, Seq<char>>,
    lemma: Seq<char>,
    code: Seq<char>,
) -> Map<Seq<char>, Seq<char>> {
    let k = normalize_lemma_spec(lemma);
    if k.len() == 0 {
        m
    } else if m.contains_key(k) && is_omw_code(m[k]) && is_builtin_code(code) {
        m
    } else {
        m.insert(k, code)
    }
}

/// Loading a sequence of `(lemma, code)` pairs, in order.
pub open spec fn alias_load(
    m: Map<Seq<char>, Seq<char>>,
    entries: Seq<(Seq<char>, Seq<char>)>,
) -> Map<Seq<char>, Seq<char>>
    decreases entries.len(),
{
    if entries.len() == 0 {
        m
    } else {
        alias_step(alias_load(m, entries.drop_last()), entries.last().0, entries.last().1)
    }
}

/// The views of a list of string-slice pairs.
pub open spec fn pair_views(entries: Seq<(&str, &str)>) -> Seq<(Seq<char>, Seq<char>)> {
    entries.map_values(|e: (&str, &str)| (e.0@, e.1@))
}

/// The index of the last row of the builtin table, among the first `n`, one
/// of whose names normalizes to `k`.
pub open spec fn static_lookup_from(n: int, k: Seq<char>) -> Option<int>
    decreases n,
{
    if n <= 0 {
        None
    } else {
        let p = builtin_alias_table()[n - 1];
        if normalize_lemma_spec(p.1) == k || normalize_lemma_spec(p.0) == k {
            Some(n - 1)
        } else {
            static_lookup_from(n - 1, k)
        }
    }
}

/// The row of the builtin table that a normalized key resolves to.
pub open spec fn static_lookup(k: Seq<char>) -> Option<int> {
    static_lookup_from(builtin_alias_table().len() as int, k)
}

/// The code a tag resolves to: the runtime dictionary first, then the
/// builtin table (whose rows are coded from their English name).
pub open spec fn builtin_code_spec(dynamic: Map<Seq<char>, Seq<char>>, tag: Seq<char>) -> Option<
    Seq<char>,
> {
    key_code_spec(dynamic, normalize_lemma_spec(tag))
}

/// The code a normalized key resolves to.
pub open spec fn key_code_spec(dynamic: Map<Seq<char>, Seq<char>>, k: Seq<char>) -> Option<
    Seq<char>,
> {
    if dynamic.contains_key(k) {
        Some(dynamic[k])
    } else {
        match static_lookup(k) {
            Some(i) => Some(en_builtin_code_spec(builtin_alias_table()[i].1)),
            None => None,
        }
    }
}

/// Like `builtin_code_spec`, but a tag whose normalized form is empty resolves to nothing.
pub open spec fn resolve_code_spec(dynamic: Map<Seq<char>, Seq<char>>, tag: Seq<char>) -> Option<
    Seq<char>,
> {
    if normalize_lemma_spec(tag).len() == 0 {
        None
    } else {
        builtin_code_spec(dynamic, tag)
    }
}

/// Whether two tags name the same concept: equal codes when both resolve,
/// else equal trimmed text.
pub open spec fn tag_matches_spec(
    dynamic: Map<Seq<char>, Seq<char>>,
    tag: Seq<char>,
    canonical: Seq<char>,
) -> bool {
    match (builtin_code_spec(dynamic, tag), builtin_code_spec(dynamic, canonical)) {
        (Some(a), Some(b)) => a == b,
        _ => trim(tag) == trim(canonical),
    }
}

/// The code of a tag: its resolved code, else the trimmed tag itself when it
/// already has a code form, else its extension code.
pub open spec fn tag_code_spec(dynamic: Map<Seq<char>, Seq<char>>, tag: Seq<char>) -> Seq<char> {
    match builtin_code_spec(dynamic, tag) {
        Some(c) => c,
        None => {
            let t = trim(tag);
            if is_builtin_code(t) || is_ext_code(t) || is_omw_code(t) {
                t
            } else {
                ext_tag_code_spec(t)
            }
        },
    }
}

/// The first row of the builtin table, from row `i` on, whose code is `code`.
pub open spec fn canonical_index_from(i: int, code: Seq<char>) -> Option<int>
    decreases builtin_alias_table().len() - i,
{
    if i < 0 || i >= builtin_alias_table().len() {
        None
    } else if en_builtin_code_spec(builtin_alias_table()[i].1) == code {
        Some(i)
    } else {
        canonical_index_from(i + 1, code)
    }
}

/// The characters of `s` before its first `.`.
pub open spec fn before_dot(s: Seq<char>) -> Seq<char>
    decreases s.len(),
{
    if s.len() == 0 || s[0] == '.' {
        Seq::empty()
    } else {
        seq![s[0]] + before_dot(s.drop_first())
    }
}

/// The readable part of a code that has no canonical name: the slug of a
/// `builtin.` or `_ext.` code with `_` shown as spaces, else the code itself.
pub open spec fn code_fallback_display(c: Seq<char>) -> Seq<char> {
    if is_builtin_code(c) {
        replace_char(c.skip("builtin."@.len() as int), '_', ' ')
    } else if is_ext_code(c) && before_dot(c.skip("_ext."@.len() as int)).len() > 0 {
        replace_char(before_dot(c.skip("_ext."@.len() as int)), '_', ' ')
    } else {
        c
    }
}

/// The display name of a code in a language: the canonical Chinese (first
/// alias) or English name of the first table row with that code, else the
/// readable part of the code.
pub open spec fn tag_display_spec(code: Seq<char>, lang: Seq<char>) -> Seq<char> {
    let c = trim(code);
    let is_zh = "zh"@.is_prefix_of(unicode_lowercase(lang));
    match canonical_index_from(0, c) {
        Some(i) => if is_zh {
            builtin_alias_table()[i].0
        } else {
            builtin_alias_table()[i].1
        },
        None => code_fallback_display(c),
    }
}

/// The runtime dictionary held by a list of aliases.
spec fn dynamic_map_of(s: Seq<DynamicAlias>) -> Map<Seq<char>, Seq<char>>
    decreases s.len(),
{
    if s.len() == 0 {
        Map::empty()
    } else {
        dynamic_map_of(s.drop_last()).insert(s.last().key@, s.last().code@)
    }
}

/// No two aliases share a key, and no key is empty.
spec fn dynamic_keys_ok(s: Seq<DynamicAlias>) -> bool {
    &&& forall|i: int, j: int|
        0 <= i < s.len() && 0 <= j < s.len() && i != j ==> #[trigger] s[i].key@ != #[trigger] s[j].key@
    &&& forall|i: int| 0 <= i < s.len() ==> (#[trigger] s[i]).key@.len() > 0
}

proof fn lemma_dynamic_map_of(s: Seq<DynamicAlias>)
    requires
        dynamic_keys_ok(s),
    ensures
        forall|k: Seq<char>|
            #[trigger] dynamic_map_of(s).contains_key(k) <==> exists|i: int|
                0 <= i < s.len() && (#[trigger] s[i]).key@ == k,
        forall|i: int| 0 <= i < s.len() ==> dynamic_map_of(s)[(#[trigger] s[i]).key@] == s[i].code@,
    decreases s.len(),
{
    if s.len() > 0 {
        let p = s.drop_last();
        assert(dynamic_keys_ok(p)) by {
            assert forall|i: int, j: int|
                0 <= i < p.len() && 0 <= j < p.len() && i != j implies #[trigger] p[i].key@
                != #[trigger] p[j].key@ by {
                assert(p[i] == s[i] && p[j] == s[j]);
            }
            assert forall|i: int| 0 <= i < p.len() implies (#[trigger] p[i]).key@.len() > 0 by {
                assert(p[i] == s[i]);
            }
        }
        lemma_dynamic_map_of(p);
        assert forall|k: Seq<char>| #[trigger]
            dynamic_map_of(s).contains_key(k) <==> exists|i: int|
                0 <= i < s.len() && (#[trigger] s[i]).key@ == k by {
            if dynamic_map_of(p).contains_key(k) {
                let i = choose|i: int| 0 <= i < p.len() && (#[trigger] p[i]).key@ == k;
                assert(s[i] == p[i]);
            }
            if exists|i: int| 0 <= i < s.len() && (#[trigger] s[i]).key@ == k {
                let i = choose|i: int| 0 <= i < s.len() && (#[trigger] s[i]).key@ == k;
                if i < s.len() - 1 {
                    assert(p[i] == s[i]);
                }
            }
        }
        assert forall|i: int| 0 <= i < s.len() implies dynamic_map_of(s)[(#[trigger] s[i]).key@]
            == s[i].code@ by {
            if i < s.len() - 1 {
                assert(p[i] == s[i]);
                assert(s[i].key@ != s[s.len() - 1].key@);
            }
        }
    }
}

impl TagRegistry {
    /// The builtin rows hold the alias table with their derived keys and codes.
    pub closed spec fn builtin_ok(self) -> bool {
        &&& self.builtin@.len() == builtin_alias_table().len()
        &&& forall|i: int|
            0 <= i < self.builtin@.len() ==> {
                let e = #[trigger] self.builtin@[i];
                let p = builtin_alias_table()[i];
                &&& e.alias@ == p.0
                &&& e.en@ == p.1
                &&& e.code@ == en_builtin_code_spec(p.1)
                &&& e.alias_key@ == normalize_lemma_spec(p.0)
                &&& e.en_key@ == normalize_lemma_spec(p.1)
            }
    }

    /// Well-formedness of the registry.
    pub closed spec fn wf(self) -> bool {
        &&& self.builtin_ok()
        &&& dynamic_keys_ok(self.dynamic@)
    }

    /// The runtime alias dictionary: normalized lemma to code.
    pub closed spec fn dynamic_aliases(self) -> Map<Seq<char>, Seq<char>> {
        dynamic_map_of(self.dynamic@)
    }

    /// A registry with the builtin table and an empty runtime dictionary.
    pub fn new() -> (r: TagRegistry)
        ensures
            r.wf(),
            r.dynamic_aliases() == Map::<Seq<char>, Seq<char>>::empty(),
    {
        let pairs = builtin_alias_pairs();
        let mut builtin: Vec<BuiltinEntry> = Vec::new();
        let mut i: usize = 0;
        while i < pairs.len()
            invariant
                pairs@.len() == builtin_alias_table().len(),
                forall|k: int|
                    0 <= k < pairs@.len() ==> (#[trigger] pairs@[k]).0@ == builtin_alias_table()[k].0
                        && pairs@[k].1@ == builtin_alias_table()[k].1,
                i <= pairs@.len(),
                builtin@.len() == i,
                forall|k: int|
                    0 <= k < i ==> {
                        let e = #[trigger] builtin@[k];
                        let p = builtin_alias_table()[k];
                        &&& e.alias@ == p.0
                        &&& e.en@ == p.1
                        &&& e.code@ == en_builtin_code_spec(p.1)
                        &&& e.alias_key@ == normalize_lemma_spec(p.0)
                        &&& e.en_key@ == normalize_lemma_spec(p.1)
                    },
            decreases pairs.len() - i,
        {
            let (a, en) = pairs[i];
            let ac = chars_of(a);
            let ec = chars_of(en);
            let entry = BuiltinEntry {
                alias: a.to_owned(),
                en: en.to_owned(),
                code: en_builtin_code(en),
                alias_key: normalize_lemma_chars(&ac),
                en_key: normalize_lemma_chars(&ec),
            };
            builtin.push(entry);
            i = i + 1;
        }
        let r = TagRegistry { builtin, dynamic: Vec::new() };
        assert(r.dynamic@ =~= Seq::<DynamicAlias>::empty());
        r
    }

    /// The index of the runtime alias with the given key.
    fn dynamic_index(&self, key: &[char]) -> (r: Option<usize>)
        ensures
            r matches Some(i) ==> i < self.dynamic@.len() && self.dynamic@[i as int].key@ == key@,
            r is None ==> forall|i: int|
                0 <= i < self.dynamic@.len() ==> (#[trigger] self.dynamic@[i]).key@ != key@,
    {
        let mut i: usize = 0;
        while i < self.dynamic.len()
            invariant
                i <= self.dynamic@.len(),
                forall|j: int| 0 <= j < i ==> (#[trigger] self.dynamic@[j]).key@ != key@,
            decreases self.dynamic.len() - i,
        {
            if chars_eq(&self.dynamic[i].key, key) {
                return Some(i);
            }
            i = i + 1;
        }
        None
    }

    /// The row of the builtin table a normalized key resolves to.
    fn static_index(&self, key: &[char]) -> (r: Option<usize>)
        requires
            self.builtin_ok(),
        ensures
            match r {
                Some(i) => static_lookup(key@) == Some(i as int) && i < self.builtin@.len(),
                None => static_lookup(key@) is None,
            },
    {
        let mut n: usize = self.builtin.len();
        while n > 0
            invariant
                self.builtin_ok(),
                n <= self.builtin@.len(),
                static_lookup(key@) == static_lookup_from(n as int, key@),
            decreases n,
        {
            let e = &self.builtin[n - 1];
            if chars_eq(&e.en_key, key) || chars_eq(&e.alias_key, key) {
                return Some(n - 1);
            }
            n = n - 1;
        }
        None
    }

    /// The code a normalized key resolves to (runtime dictionary first).
    fn code_for_key<'a>(&'a self, key: &[char]) -> (r: Option<&'a str>)
        requires
            self.wf(),
        ensures
            match r {
                Some(c) => key_code_spec(self.dynamic_aliases(), key@) == Some(c@),
                None => key_code_spec(self.dynamic_aliases(), key@) is None,
            },
    {
        proof {
            lemma_dynamic_map_of(self.dynamic@);
        }
        match self.dynamic_index(key) {
            Some(i) => {
                return Some(self.dynamic[i].code.as_str());
            },
            None => {},
        }
        match self.static_index(key) {
            Some(i) => Some(self.builtin[i].code.as_str()),
            None => None,
        }
    }

    /// Inserts or replaces the runtime alias for `key`.
    fn put_dynamic(&mut self, key: Vec<char>, code: String)
        requires
            old(self).wf(),
            key@.len() > 0,
        ensures
            final(self).wf(),
            final(self).dynamic_aliases() == old(self).dynamic_aliases().insert(key@, code@),
    {
        proof {
            lemma_dynamic_map_of(self.dynamic@);
        }
        let ghost old_map = self.dynamic_aliases();
        let ghost k = key@;
        let ghost c = code@;
        match self.dynamic_index(&key) {
            Some(i) => {
                self.dynamic.set(i, DynamicAlias { key, code });
                proof {
                    let s = self.dynamic@;
                    assert(dynamic_keys_ok(s)) by {
                        assert forall|a: int, b: int|
                            0 <= a < s.len() && 0 <= b < s.len() && a != b implies #[trigger] s[a].key@
                            != #[trigger] s[b].key@ by {
                            assert(old(self).dynamic@[a as int].key@ == s[a].key@ || a == i);
                            assert(old(self).dynamic@[b as int].key@ == s[b].key@ || b == i);
                            assert(old(self).dynamic@[i as int].key@ == k);
                        }
                    }
                    lemma_dynamic_map_of(s);
                    assert(dynamic_map_of(s) =~= old_map.insert(k, c)) by {
                        assert forall|kk: Seq<char>| #[trigger]
                            dynamic_map_of(s).contains_key(kk) <==> old_map.insert(k, c).contains_key(kk) by {
                            if dynamic_map_of(s).contains_key(kk) {
                                let j = choose|j: int| 0 <= j < s.len() && (#[trigger] s[j]).key@ == kk;
                                if j != i {
                                    assert(old(self).dynamic@[j].key@ == kk);
                                }
                            }
                            if old_map.contains_key(kk) {
                                let j = choose|j: int|
                                    0 <= j < old(self).dynamic@.len() && (#[trigger] old(self).dynamic@[j]).key@
                                        == kk;
                                if j != i {
                                    assert(s[j].key@ == kk);
                                } else {
                                    assert(s[j].key@ == kk);
                                }
                            }
                            if kk == k {
                                assert(s[i as int].key@ == kk);
                            }
                        }
                        assert forall|kk: Seq<char>|
                            dynamic_map_of(s).contains_key(kk) implies dynamic_map_of(s)[kk]
                            == old_map.insert(k, c)[kk] by {
                            let j = choose|j: int| 0 <= j < s.len() && (#[trigger] s[j]).key@ == kk;
                            if j != i {
                                assert(old(self).dynamic@[j].key@ == kk);
                                assert(s[j] == old(self).dynamic@[j]);
                            }
                        }
                    }
                }
            },
            None => {
                self.dynamic.push(DynamicAlias { key, code });
                proof {
                    let s = self.dynamic@;
                    assert(s.drop_last() =~= old(self).dynamic@);
                    assert(dynamic_keys_ok(s)) by {
                        assert forall|a: int, b: int|
                            0 <= a < s.len() && 0 <= b < s.len() && a != b implies #[trigger] s[a].key@
                            != #[trigger] s[b].key@ by {
                            if a < s.len() - 1 {
                                assert(s[a] == old(self).dynamic@[a]);
                            }
                            if b < s.len() - 1 {
                                assert(s[b] == old(self).dynamic@[b]);
                            }
                        }
                        assert forall|a: int| 0 <= a < s.len() implies (#[trigger] s[a]).key@.len() > 0 by {
                            if a < s.len() - 1 {
                                assert(s[a] == old(self).dynamic@[a]);
                            }
                        }
                    }
                }
            },
        }
    }
}

/// Loads `(lemma, code)` pairs into the runtime alias dictionary, in order.
/// Lemmas are normalized (NFKC, trim, lowercase); empty ones are skipped.
/// For a lemma that already has an `omw.*` code, an incoming `builtin.*`
/// code is ignored; otherwise the later pair replaces the earlier one.
pub fn load_aliases_from_entries(registry: &mut TagRegistry, entries: Vec<(&str, &str)>)
    requires
        old(registry).wf(),
    ensures
        final(registry).wf(),
        final(registry).dynamic_aliases() == alias_load(
            old(registry).dynamic_aliases(),
            pair_views(entries@),
        ),
{
    let mut i: usize = 0;
    while i < entries.len()
        invariant
            registry.wf(),
            i <= entries@.len(),
            registry.dynamic_aliases() == alias_load(
                old(registry).dynamic_aliases(),
                pair_views(entries@.take(i as int)),
            ),
        decreases entries.len() - i,
    {
        let (lemma, code) = entries[i];
        proof {
            assert(pair_views(entries@.take(i + 1)).drop_last() =~= pair_views(entries@.take(i as int)));
        }
        let lc = chars_of(lemma);
        let key = normalize_lemma_chars(&lc);
        if key.len() > 0 {
            let incoming_builtin = starts_with_str(&chars_of(code), "builtin.");
            let mut keep_existing = false;
            proof {
                lemma_dynamic_map_of(registry.dynamic@);
            }
            match registry.dynamic_index(&key) {
                Some(j) => {
                    let existing_omw = starts_with_str(&chars_of(registry.dynamic[j].code.as_str()), "omw.");
                    if existing_omw && incoming_builtin {
                        keep_existing = true;
                    }
                },
                None => {},
            }
            if !keep_existing {
                registry.put_dynamic(key, code.to_owned());
            }
        }
        i = i + 1;
    }
    proof {
        assert(entries@.take(entries@.len() as int) =~= entries@);
    }
}

/// Resolves a tag to a controlled code: the runtime dictionary first, then
/// the builtin table. A tag that normalizes to nothing, or is found nowhere,
/// resolves to `None` (callers then derive an `_ext` code).
pub fn resolve_controlled_tag_code<'a>(registry: &'a TagRegistry, tag: &str) -> (r: Option<&'a str>)
    requires
        registry.wf(),
    ensures
        match r {
            Some(c) => resolve_code_spec(registry.dynamic_aliases(), tag@) == Some(c@),
            None => resolve_code_spec(registry.dynamic_aliases(), tag@) is None,
        },
{
    let tc = chars_of(tag);
    let key = normalize_lemma_chars(&tc);
    if key.len() == 0 {
        return None;
    }
    registry.code_for_key(&key)
}

/// Empties the runtime alias dictionary.
pub fn clear_dynamic_aliases(registry: &mut TagRegistry)
    requires
        old(registry).wf(),
    ensures
        final(registry).wf(),
        final(registry).dynamic_aliases() == Map::<Seq<char>, Seq<char>>::empty(),
        final(registry).builtin_ok() == old(registry).builtin_ok(),
{
    registry.dynamic = Vec::new();
    assert(registry.dynamic@ =~= Seq::<DynamicAlias>::empty());
}

/// Resolves an alias or canonical name to its code: the runtime dictionary
/// first, then the builtin table.
pub fn builtin_tag_code<'a>(registry: &'a TagRegistry, tag: &str) -> (r: Option<&'a str>)
    requires
        registry.wf(),
    ensures
        match r {
            Some(c) => builtin_code_spec(registry.dynamic_aliases(), tag@) == Some(c@),
            None => builtin_code_spec(registry.dynamic_aliases(), tag@) is None,
        },
{
    let tc = chars_of(tag);
    let key = normalize_lemma_chars(&tc);
    registry.code_for_key(&key)
}

/// Whether a tag names the same concept as a canonical name (Chinese or
/// English): equal codes when both resolve, otherwise equal trimmed text.
pub fn tag_matches_concept(registry: &TagRegistry, tag: &str, canonical_zh_or_en: &str) -> (r: bool)
    requires
        registry.wf(),
    ensures
        r == tag_matches_spec(registry.dynamic_aliases(), tag@, canonical_zh_or_en@),
{
    match (builtin_tag_code(registry, tag), builtin_tag_code(registry, canonical_zh_or_en)) {
        (Some(a), Some(b)) => chars_eq(&chars_of(a), &chars_of(b)),
        _ => {
            let a = trim_chars(&chars_of(tag));
            let b = trim_chars(&chars_of(canonical_zh_or_en));
            chars_eq(&a, &b)
        },
    }
}

/// Normalizes a tag to a code: its resolved code; else the trimmed tag when it
/// already starts with `builtin.`, `_ext.` or `omw.`; else its `_ext` code.
pub fn normalize_tag_to_code(registry: &TagRegistry, tag: &str) -> (r: String)
    requires
        registry.wf(),
    ensures
        r@ == tag_code_spec(registry.dynamic_aliases(), tag@),
{
    match builtin_tag_code(registry, tag) {
        Some(code) => {
            return code.to_owned();
        },
        None => {},
    }
    let t = trim_chars(&chars_of(tag));
    if starts_with_str(&t, "builtin.") || starts_with_str(&t, "_ext.") || starts_with_str(&t, "omw.") {
        return string_of(&t);
    }
    let ts = string_of(&t);
    derive_ext_tag_code(ts.as_str())
}

/// The display name of a code in a language (`zh*` selects Chinese).
pub fn tag_display(registry: &TagRegistry, code: &str, lang: &str) -> (r: String)
    requires
        registry.wf(),
    ensures
        r@ == tag_display_spec(code@, lang@),
{
    let clean = trim_chars(&chars_of(code));
    let l = lowercase_chars(&chars_of(lang));
    let is_zh = starts_with_str(&l, "zh");
    let mut i: usize = 0;
    while i < registry.builtin.len()
        invariant
            registry.wf(),
            i <= registry.builtin@.len(),
            canonical_index_from(0, clean@) == canonical_index_from(i as int, clean@),
            clean@ == trim(code@),
            is_zh == "zh"@.is_prefix_of(unicode_lowercase(lang@)),
        decreases registry.builtin.len() - i,
    {
        let e = &registry.builtin[i];
        proof {
            let ee = registry.builtin@[i as int];
            assert(ee.code@ == en_builtin_code_spec(builtin_alias_table()[i as int].1));
            assert(ee.alias@ == builtin_alias_table()[i as int].0);
            assert(ee.en@ == builtin_alias_table()[i as int].1);
        }
        if chars_eq(&chars_of(e.code.as_str()), &clean) {
            if is_zh {
                return e.alias.clone();
            } else {
                return e.en.clone();
            }
        }
        i = i + 1;
    }
    readable_code(&clean)
}

/// The readable part of a code (see `code_fallback_display`).
fn readable_code(c: &[char]) -> (r: String)
    ensures
        r@ == code_fallback_display(c@),
{
    if starts_with_str(c, "builtin.") {
        let p = chars_of("builtin.");
        let rest = crate::text::slice_chars(c, p.len(), c.len());
        assert(rest@ =~= c@.skip("builtin."@.len() as int));
        let shown = replace_char_exec(&rest, '_', ' ');
        return string_of(&shown);
    }
    if starts_with_str(c, "_ext.") {
        let p = chars_of("_ext.");
        let rest = crate::text::slice_chars(c, p.len(), c.len());
        assert(rest@ =~= c@.skip("_ext."@.len() as int));
        let seg = before_dot_exec(&rest);
        if seg.len() > 0 {
            let shown = replace_char_exec(&seg, '_', ' ');
            return string_of(&shown);
        }
    }
    string_of(c)
}

/// `before_dot` on a character sequence.
fn before_dot_exec(v: &[char]) -> (r: Vec<char>)
    ensures
        r@ == before_dot(v@),
{
    let mut i: usize = 0;
    while i < v.len() && v[i] != '.'
        invariant
            i <= v@.len(),
            forall|k: int| 0 <= k < i ==> v@[k] != '.',
        decreases v.len() - i,
    {
        i = i + 1;
    }
    proof {
        lemma_before_dot(v@, i as int);
    }
    crate::text::slice_chars(v, 0, i)
}

proof fn lemma_before_dot(s: Seq<char>, i: int)
    requires
        0 <= i <= s.len(),
        forall|k: int| 0 <= k < i ==> s[k] != '.',
        i == s.len() || s[i] == '.',
    ensures
        before_dot(s) == s.subrange(0, i),
    decreases i,
{
    if i > 0 {
        lemma_before_dot(s.drop_first(), i - 1);
        assert(s.subrange(0, i) =~= seq![s[0]] + s.drop_first().subrange(0, i - 1));
    } else {
        assert(s.subrange(0, 0) =~= Seq::<char>::empty());
    }
}

/// Lexicographic order of character sequences by code point (the order of
/// `String`'s `Ord`, since UTF-8 preserves code-point order).
pub open spec fn seq_lt(a: Seq<char>, b: Seq<char>) -> bool
    decreases a.len(),
{
    if a.len() == 0 {
        b.len() > 0
    } else if b.len() == 0 {
        false
    } else if a[0] != b[0] {
        a[0] < b[0]
    } else {
        seq_lt(a.drop_first(), b.drop_first())
    }
}

/// Strictly increasing in `seq_lt`: sorted and free of duplicates.
pub open spec fn strictly_sorted(s: Seq<Seq<char>>) -> bool {
    forall|i: int, j: int| 0 <= i < j < s.len() ==> seq_lt(#[trigger] s[i], #[trigger] s[j])
}

/// The views of a list of strings.
pub open spec fn string_views(s: Seq<String>) -> Seq<Seq<char>> {
    s.map_values(|x: String| x@)
}

/// The codes of a list of tags.
pub open spec fn tag_codes_spec(dynamic: Map<Seq<char>, Seq<char>>, tags: Seq<String>) -> Seq<
    Seq<char>,
> {
    tags.map_values(|t: String| tag_code_spec(dynamic, t@))
}

pub proof fn lemma_seq_lt_irreflexive(a: Seq<char>)
    ensures
        !seq_lt(a, a),
    decreases a.len(),
{
    if a.len() > 0 {
        lemma_seq_lt_irreflexive(a.drop_first());
    }
}

pub proof fn lemma_seq_lt_transitive(a: Seq<char>, b: Seq<char>, c: Seq<char>)
    requires
        seq_lt(a, b),
        seq_lt(b, c),
    ensures
        seq_lt(a, c),
    decreases a.len(),
{
    if a.len() > 0 && b.len() > 0 && c.len() > 0 && a[0] == b[0] && b[0] == c[0] {
        lemma_seq_lt_transitive(a.drop_first(), b.drop_first(), c.drop_first());
    }
}

pub proof fn lemma_seq_lt_total(a: Seq<char>, b: Seq<char>)
    requires
        a != b,
    ensures
        seq_lt(a, b) || seq_lt(b, a),
    decreases a.len(),
{
    if a.len() > 0 && b.len() > 0 && a[0] == b[0] {
        if a.drop_first() == b.drop_first() {
            assert(a =~= seq![a[0]] + a.drop_first());
            assert(b =~= seq![b[0]] + b.drop_first());
        }
        lemma_seq_lt_total(a.drop_first(), b.drop_first());
    } else if a.len() == 0 && b.len() == 0 {
        assert(a =~= b);
    }
}

pub proof fn lemma_seq_lt_asymmetric(a: Seq<char>, b: Seq<char>)
    requires
        seq_lt(a, b),
    ensures
        !seq_lt(b, a),
{
    if seq_lt(b, a) {
        lemma_seq_lt_transitive(a, b, a);
        lemma_seq_lt_irreflexive(a);
    }
}

/// `seq_lt` on character slices.
pub fn chars_lt(a: &[char], b: &[char]) -> (r: bool)
    ensures
        r == seq_lt(a@, b@),
{
    let mut i: usize = 0;
    assert(a@.skip(0) =~= a@ && b@.skip(0) =~= b@);
    while i < a.len() && i < b.len() && a[i] == b[i]
        invariant
            i <= a@.len(),
            i <= b@.len(),
            seq_lt(a@, b@) == seq_lt(a@.skip(i as int), b@.skip(i as int)),
        decreases a.len() - i,
    {
        assert(a@.skip(i as int).drop_first() =~= a@.skip(i + 1));
        assert(b@.skip(i as int).drop_first() =~= b@.skip(i + 1));
        i = i + 1;
    }
    if i == a.len() {
        i < b.len()
    } else if i == b.len() {
        false
    } else {
        a[i] < b[i]
    }
}

/// Two strictly sorted sequences with the same elements are equal.
pub proof fn lemma_sorted_sets_equal(a: Seq<Seq<char>>, b: Seq<Seq<char>>)
    requires
        strictly_sorted(a),
        strictly_sorted(b),
        a.to_set() == b.to_set(),
    ensures
        a == b,
    decreases a.len(),
{
    if a.len() == 0 {
        if b.len() > 0 {
            assert(b.to_set().contains(b[0]));
        }
        assert(a =~= b);
    } else {
        assert(a.to_set().contains(a[0]));
        assert(b.len() > 0);
        assert(b.to_set().contains(b[0]));
        let j = choose|j: int| 0 <= j < b.len() && b[j] == a[0];
        let i = choose|i: int| 0 <= i < a.len() && a[i] == b[0];
        if i > 0 && j > 0 {
            assert(seq_lt(a[0], a[i]));
            assert(seq_lt(b[0], b[j]));
            lemma_seq_lt_asymmetric(a[0], b[0]);
        } else if i > 0 {
            assert(b[0] == a[0]);
        }
        assert(a[0] == b[0]);
        let ta = a.drop_first();
        let tb = b.drop_first();
        assert(strictly_sorted(ta)) by {
            assert forall|x: int, y: int| 0 <= x < y < ta.len() implies seq_lt(#[trigger] ta[x], #[trigger] ta[y]) by {
                assert(ta[x] == a[x + 1] && ta[y] == a[y + 1]);
            }
        }
        assert(strictly_sorted(tb)) by {
            assert forall|x: int, y: int| 0 <= x < y < tb.len() implies seq_lt(#[trigger] tb[x], #[trigger] tb[y]) by {
                assert(tb[x] == b[x + 1] && tb[y] == b[y + 1]);
            }
        }
        assert(ta.to_set() =~= tb.to_set()) by {
            assert forall|x: Seq<char>| ta.to_set().contains(x) implies tb.to_set().contains(x) by {
                let k = choose|k: int| 0 <= k < ta.len() && ta[k] == x;
                assert(a[k + 1] == x);
                assert(seq_lt(a[0], a[k + 1]));
                assert(b.to_set().contains(x));
                let m = choose|m: int| 0 <= m < b.len() && b[m] == x;
                if m == 0 {
                    lemma_seq_lt_irreflexive(x);
                }
                assert(tb[m - 1] == x);
            }
            assert forall|x: Seq<char>| tb.to_set().contains(x) implies ta.to_set().contains(x) by {
                let k = choose|k: int| 0 <= k < tb.len() && tb[k] == x;
                assert(b[k + 1] == x);
                assert(seq_lt(b[0], b[k + 1]));
                assert(a.to_set().contains(x));
                let m = choose|m: int| 0 <= m < a.len() && a[m] == x;
                if m == 0 {
                    lemma_seq_lt_irreflexive(x);
                }
                assert(ta[m - 1] == x);
            }
        }
        lemma_sorted_sets_equal(ta, tb);
        assert(a =~= seq![a[0]] + ta);
        assert(b =~= seq![b[0]] + tb);
    }
}

/// Normalizes a list of tags to the sorted, duplicate-free list of their codes.
pub fn normalize_tag_set_to_codes(registry: &TagRegistry, tags: &[String]) -> (r: Vec<String>)
    requires
        registry.wf(),
    ensures
        strictly_sorted(string_views(r@)),
        string_views(r@).to_set() == tag_codes_spec(registry.dynamic_aliases(), tags@).to_set(),
{
    let ghost dynm = registry.dynamic_aliases();
    let mut out: Vec<String> = Vec::new();
    let mut keys: Vec<Vec<char>> = Vec::new();
    let mut i: usize = 0;
    while i < tags.len()
        invariant
            registry.wf(),
            dynm == registry.dynamic_aliases(),
            i <= tags@.len(),
            keys@.len() == out@.len(),
            forall|k: int| 0 <= k < keys@.len() ==> (#[trigger] keys@[k])@ == out@[k]@,
            strictly_sorted(string_views(out@)),
            string_views(out@).to_set() == tag_codes_spec(dynm, tags@.take(i as int)).to_set(),
        decreases tags.len() - i,
    {
        let code = normalize_tag_to_code(registry, tags[i].as_str());
        let c = chars_of(code.as_str());
        let ghost old_views = string_views(out@);
        let ghost prefix = tag_codes_spec(dynm, tags@.take(i as int));
        let ghost next = tag_codes_spec(dynm, tags@.take(i + 1));
        assert(next =~= prefix.push(c@)) by {
            assert(tags@.take(i + 1) =~= tags@.take(i as int).push(tags@[i as int]));
        }
        let mut p: usize = 0;
        while p < keys.len() && chars_lt(&keys[p], &c)
            invariant
                p <= keys@.len(),
                keys@.len() == out@.len(),
                forall|k: int| 0 <= k < keys@.len() ==> (#[trigger] keys@[k])@ == out@[k]@,
                forall|k: int| 0 <= k < p ==> seq_lt(#[trigger] string_views(out@)[k], c@),
            decreases keys.len() - p,
        {
            assert(string_views(out@)[p as int] == keys@[p as int]@);
            p = p + 1;
        }
        let dup = p < keys.len() && chars_eq(&keys[p], &c);
        if !dup {
            proof {
                assert forall|k: int| p <= k < old_views.len() implies seq_lt(c@, #[trigger] old_views[k]) by {
                    assert(old_views[p as int] == keys@[p as int]@);
                    assert(!seq_lt(old_views[p as int], c@));
                    if k > p {
                        assert(seq_lt(old_views[p as int], old_views[k]));
                        if seq_lt(old_views[k], c@) {
                            lemma_seq_lt_transitive(old_views[p as int], old_views[k], c@);
                        }
                    }
                    assert(!seq_lt(old_views[k], c@));
                    if old_views[k] == c@ {
                        assert(keys@[k]@ == old_views[k]);
                    }
                    lemma_seq_lt_total(old_views[k], c@);
                }
            }
            let ghost old_keys = keys@;
            let ghost old_out = out@;
            out.insert(p, code);
            keys.insert(p, c);
            proof {
                let nv = string_views(out@);
                assert(nv =~= old_views.insert(p as int, c@));
                assert(strictly_sorted(nv)) by {
                    assert forall|x: int, y: int| 0 <= x < y < nv.len() implies seq_lt(#[trigger] nv[x], #[trigger] nv[y]) by {
                        if y < p {
                            assert(nv[x] == old_views[x] && nv[y] == old_views[y]);
                        } else if y == p {
                            assert(nv[x] == old_views[x]);
                        } else if x == p {
                            assert(nv[y] == old_views[y - 1]);
                        } else if x < p {
                            assert(nv[x] == old_views[x] && nv[y] == old_views[y - 1]);
                            assert(seq_lt(old_views[x], c@));
                            assert(seq_lt(c@, old_views[y - 1]));
                            lemma_seq_lt_transitive(old_views[x], c@, old_views[y - 1]);
                        } else {
                            assert(nv[x] == old_views[x - 1] && nv[y] == old_views[y - 1]);
                        }
                    }
                }
                assert(nv.to_set() =~= next.to_set()) by {
                    assert forall|z: Seq<char>| nv.to_set().contains(z) implies next.to_set().contains(z) by {
                        let k = choose|k: int| 0 <= k < nv.len() && nv[k] == z;
                        if k == p {
                            assert(next[i as int] == z);
                        } else if k < p {
                            assert(old_views[k] == z);
                            assert(old_views.to_set().contains(z));
                            let m = choose|m: int| 0 <= m < prefix.len() && prefix[m] == z;
                            assert(next[m] == z);
                        } else {
                            assert(old_views[k - 1] == z);
                            assert(old_views.to_set().contains(z));
                            let m = choose|m: int| 0 <= m < prefix.len() && prefix[m] == z;
                            assert(next[m] == z);
                        }
                    }
                    assert forall|z: Seq<char>| next.to_set().contains(z) implies nv.to_set().contains(z) by {
                        let k = choose|k: int| 0 <= k < next.len() && next[k] == z;
                        if k == i {
                            assert(nv[p as int] == z);
                        } else {
                            assert(prefix[k] == z);
                            assert(prefix.to_set().contains(z));
                            let m = choose|m: int| 0 <= m < old_views.len() && old_views[m] == z;
                            if m < p {
                                assert(nv[m] == z);
                            } else {
                                assert(nv[m + 1] == z);
                            }
                        }
                    }
                }
                assert forall|k: int| 0 <= k < keys@.len() implies (#[trigger] keys@[k])@ == out@[k]@ by {
                    if k < p {
                        assert(keys@[k] == old_keys[k] && out@[k] == old_out[k]);
                    } else if k > p {
                        assert(keys@[k] == old_keys[k - 1] && out@[k] == old_out[k - 1]);
                    }
                }
            }
        } else {
            proof {
                assert(old_views[p as int] == c@);
                assert(old_views.to_set() =~= next.to_set()) by {
                    assert forall|z: Seq<char>| old_views.to_set().contains(z) implies next.to_set().contains(z) by {
                        let m = choose|m: int| 0 <= m < prefix.len() && prefix[m] == z;
                        assert(next[m] == z);
                    }
                    assert forall|z: Seq<char>| next.to_set().contains(z) implies old_views.to_set().contains(z) by {
                        let k = choose|k: int| 0 <= k < next.len() && next[k] == z;
                        if k == i {
                            assert(old_views[p as int] == z);
                        } else {
                            assert(prefix[k] == z);
                            assert(prefix.to_set().contains(z));
                        }
                    }
                }
            }
        }
        i = i + 1;
    }
    assert(tags@.take(tags@.len() as int) =~= tags@);
    out
}

/// Concept matching is symmetric.
pub proof fn law_tag_matches_symmetric(
    dynamic: Map<Seq<char>, Seq<char>>,
    a: Seq<char>,
    b: Seq<char>,
)
    ensures
        tag_matches_spec(dynamic, a, b) == tag_matches_spec(dynamic, b, a),
{
}

/// Every tag matches itself.
pub proof fn law_tag_matches_reflexive(dynamic: Map<Seq<char>, Seq<char>>, a: Seq<char>)
    ensures
        tag_matches_spec(dynamic, a, a),
{
}

/// What a map holds for a key.
pub open spec fn map_get(m: Map<Seq<char>, Seq<char>>, k: Seq<char>) -> Option<Seq<char>> {
    if m.contains_key(k) {
        Some(m[k])
    } else {
        None
    }
}

/// The code of the last entry whose lemma normalizes to `k`.
pub open spec fn last_code(entries: Seq<(Seq<char>, Seq<char>)>, k: Seq<char>) -> Option<Seq<char>>
    decreases entries.len(),
{
    if entries.len() == 0 {
        None
    } else if normalize_lemma_spec(entries.last().0) == k {
        Some(entries.last().1)
    } else {
        last_code(entries.drop_last(), k)
    }
}

/// The code of the last entry for `k` that is not a `builtin.*` code, else
/// what the dictionary held for `k` before.
pub open spec fn last_non_builtin(
    m: Map<Seq<char>, Seq<char>>,
    entries: Seq<(Seq<char>, Seq<char>)>,
    k: Seq<char>,
) -> Option<Seq<char>>
    decreases entries.len(),
{
    if entries.len() == 0 {
        map_get(m, k)
    } else if normalize_lemma_spec(entries.last().0) == k && !is_builtin_code(entries.last().1) {
        Some(entries.last().1)
    } else {
        last_non_builtin(m, entries.drop_last(), k)
    }
}

/// The closed form of loading aliases for a key: unchanged when no entry
/// names it (or it is empty); otherwise an `omw.*` code that is the last
/// non-builtin code stays, and else the last entry wins.
pub open spec fn alias_closed_form(
    m: Map<Seq<char>, Seq<char>>,
    entries: Seq<(Seq<char>, Seq<char>)>,
    k: Seq<char>,
) -> Option<Seq<char>> {
    if k.len() == 0 || last_code(entries, k) is None {
        map_get(m, k)
    } else {
        match last_non_builtin(m, entries, k) {
            Some(v) => if is_omw_code(v) {
                Some(v)
            } else {
                last_code(entries, k)
            },
            None => last_code(entries, k),
        }
    }
}

proof fn lemma_omw_not_builtin(x: Seq<char>)
    ensures
        is_omw_code(x) ==> !is_builtin_code(x),
{
    reveal_strlit("omw.");
    reveal_strlit("builtin.");
    if is_omw_code(x) && is_builtin_code(x) {
        assert(x[0] == "omw."@[0]);
        assert(x[0] == "builtin."@[0]);
    }
}

proof fn lemma_last_code_non_builtin(
    m: Map<Seq<char>, Seq<char>>,
    entries: Seq<(Seq<char>, Seq<char>)>,
    k: Seq<char>,
)
    ensures
        (last_code(entries, k) is Some && !is_builtin_code(last_code(entries, k)->Some_0)) ==> last_non_builtin(
            m,
            entries,
            k,
        ) == last_code(entries, k),
        last_code(entries, k) is None ==> last_non_builtin(m, entries, k) == map_get(m, k),
    decreases entries.len(),
{
    if entries.len() > 0 {
        lemma_last_code_non_builtin(m, entries.drop_last(), k);
    }
}

/// Loading aliases in closed form: for every key, the dictionary after
/// loading holds what `alias_closed_form` gives. Keys that no entry names
/// (and the empty key) keep what they held; for a named key, an `omw.*`
/// code is never displaced by a later `builtin.*` code, and otherwise the
/// last entry wins.
pub proof fn law_alias_load_closed_form(
    m: Map<Seq<char>, Seq<char>>,
    entries: Seq<(Seq<char>, Seq<char>)>,
    k: Seq<char>,
)
    ensures
        map_get(alias_load(m, entries), k) == alias_closed_form(m, entries, k),
    decreases entries.len(),
{
    if entries.len() > 0 {
        let p = entries.drop_last();
        let e = entries.last();
        law_alias_load_closed_form(m, p, k);
        lemma_last_code_non_builtin(m, p, k);
        let prev = alias_load(m, p);
        let kk = normalize_lemma_spec(e.0);
        assert(alias_load(m, entries) == alias_step(prev, e.0, e.1));
        if kk.len() == 0 || kk != k {
            assert(map_get(alias_step(prev, e.0, e.1), k) == map_get(prev, k));
        } else {
            lemma_omw_not_builtin(e.1);
            if prev.contains_key(k) {
                lemma_omw_not_builtin(prev[k]);
            }
            if let Some(x) = last_code(p, k) {
                lemma_omw_not_builtin(x);
            }
            if let Some(v) = last_non_builtin(m, p, k) {
                lemma_omw_not_builtin(v);
            }
        }
    }
}

/// Loading aliases keeps every old key and adds exactly the non-empty keys
/// that entries name; a key no entry names keeps its code.
pub proof fn law_alias_load_keys(
    m: Map<Seq<char>, Seq<char>>,
    entries: Seq<(Seq<char>, Seq<char>)>,
    k: Seq<char>,
)
    ensures
        alias_load(m, entries).contains_key(k) <==> (m.contains_key(k) || (k.len() > 0 && last_code(
            entries,
            k,
        ) is Some)),
        (k.len() == 0 || last_code(entries, k) is None) ==> map_get(alias_load(m, entries), k) == map_get(m, k),
{
    law_alias_load_closed_form(m, entries, k);
}

proof fn lemma_canonical_found(i: int, j: int, code: Seq<char>)
    requires
        0 <= i <= j < builtin_alias_table().len(),
        en_builtin_code_spec(builtin_alias_table()[j].1) == code,
    ensures
        canonical_index_from(i, code) matches Some(x) && i <= x <= j && en_builtin_code_spec(
            builtin_alias_table()[x].1,
        ) == code,
    decreases j - i,
{
    if en_builtin_code_spec(builtin_alias_table()[i].1) != code {
        lemma_canonical_found(i + 1, j, code);
    }
}

/// The display name of a builtin code round-trips: for the code of any
/// row of the builtin table, its non-Chinese display name is the English
/// name of the first row with that code, whose builtin code is the code.
pub proof fn law_tag_display_round_trip(j: int, lang: Seq<char>)
    requires
        0 <= j < builtin_alias_table().len(),
        !"zh"@.is_prefix_of(unicode_lowercase(lang)),
    ensures
        ({
            let c = en_builtin_code_spec(builtin_alias_table()[j].1);
            &&& en_builtin_code_spec(tag_display_spec(c, lang)) == c
            &&& canonical_index_from(0, c) matches Some(i) && i <= j && tag_display_spec(c, lang)
                == builtin_alias_table()[i].1
        }),
{
    let c = en_builtin_code_spec(builtin_alias_table()[j].1);
    crate::slug::lemma_builtin_code_trimmed(builtin_alias_table()[j].1);
    lemma_canonical_found(0, j, c);
}

/// For a lemma whose loaded codes are all `omw.*` or `builtin.*`, an
/// `omw.*` code wins whatever the order of loading: once the dictionary
/// holds an `omw.*` code for the lemma, or any loaded pair gives it one, the
/// lemma ends with an `omw.*` code.
pub proof fn law_omw_code_wins(
    m: Map<Seq<char>, Seq<char>>,
    entries: Seq<(Seq<char>, Seq<char>)>,
    k: Seq<char>,
)
    requires
        k.len() > 0,
        forall|i: int|
            0 <= i < entries.len() && normalize_lemma_spec((#[trigger] entries[i]).0) == k
                ==> is_omw_code(entries[i].1) || is_builtin_code(entries[i].1),
        (m.contains_key(k) && is_omw_code(m[k])) || exists|i: int|
            0 <= i < entries.len() && normalize_lemma_spec((#[trigger] entries[i]).0) == k
                && is_omw_code(entries[i].1),
    ensures
        alias_load(m, entries).contains_key(k),
        is_omw_code(alias_load(m, entries)[k]),
    decreases entries.len(),
{
    if entries.len() > 0 {
        let p = entries.drop_last();
        let e = entries.last();
        assert forall|i: int|
            0 <= i < p.len() && normalize_lemma_spec((#[trigger] p[i]).0) == k
                implies is_omw_code(p[i].1) || is_builtin_code(p[i].1) by {
            assert(p[i] == entries[i]);
        }
        let earlier = (m.contains_key(k) && is_omw_code(m[k])) || exists|i: int|
            0 <= i < p.len() && normalize_lemma_spec((#[trigger] p[i]).0) == k
                && is_omw_code(p[i].1);
        if earlier {
            law_omw_code_wins(m, p, k);
        } else {
            let i = choose|i: int|
                0 <= i < entries.len() && normalize_lemma_spec((#[trigger] entries[i]).0) == k
                    && is_omw_code(entries[i].1);
            if i < entries.len() - 1 {
                assert(p[i] == entries[i]);
            }
            assert(i == entries.len() - 1);
        }
    } else {
        assert(m.contains_key(k) && is_omw_code(m[k]));
    }
}

/// The normalized tag set depends only on the set of codes of the tags:
/// two tag lists (say, Chinese and English aliases of the same concepts)
/// whose codes form the same set normalize to the same list.
pub proof fn law_tag_set_depends_on_codes_only(
    dynamic: Map<Seq<char>, Seq<char>>,
    tags1: Seq<String>,
    tags2: Seq<String>,
    r1: Seq<Seq<char>>,
    r2: Seq<Seq<char>>,
)
    requires
        strictly_sorted(r1),
        strictly_sorted(r2),
        r1.to_set() == tag_codes_spec(dynamic, tags1).to_set(),
        r2.to_set() == tag_codes_spec(dynamic, tags2).to_set(),
        tag_codes_spec(dynamic, tags1).to_set() == tag_codes_spec(dynamic, tags2).to_set(),
    ensures
        r1 == r2,
{
    lemma_sorted_sets_equal(r1, r2);
}

} // verus!
