//! The rules a perception request applies to the tags the vision engines
//! produce: text-presence marks, code screenshots, the merge of the
//! mutually exclusive groups, photo-type refinement, which engine a tag is
//! credited to, the security escalation, and the small labels around them.
use vstd::prelude::*;
use crate::tag_identity::{TagRegistry, tag_matches_concept, tag_matches_spec};
use crate::text::{chars_of, chars_eq, trim, trim_chars, contains_chars, contains_seq, starts_with_str};
use crate::extract_plan::views_of;
use crate::strlist::contains_string;

verus! {

/// The tags of `tags` that do not name the concept `c`, in order.
pub open spec fn without_concept(
    d: Map<Seq<char>, Seq<char>>,
    tags: Seq<Seq<char>>,
    c: Seq<char>,
) -> Seq<Seq<char>>
    decreases tags.len(),
{
    if tags.len() == 0 {
        Seq::empty()
    } else {
        let r = without_concept(d, tags.drop_last(), c);
        if tag_matches_spec(d, tags.last(), c) {
            r
        } else {
            r.push(tags.last())
        }
    }
}

/// Whether some tag of `tags` names the concept `c`.
pub open spec fn any_concept(d: Map<Seq<char>, Seq<char>>, tags: Seq<Seq<char>>, c: Seq<char>) -> bool {
    exists|i: int| 0 <= i < tags.len() && tag_matches_spec(d, #[trigger] tags[i], c)
}

/// The tags without those naming `concept` (see `without_concept`).
pub fn remove_concept(registry: &TagRegistry, tags: &Vec<String>, concept: &str) -> (r: Vec<String>)
    requires
        registry.wf(),
    ensures
        r.deep_view() == without_concept(registry.dynamic_aliases(), tags.deep_view(), concept@),
{
    let ghost d = registry.dynamic_aliases();
    let mut out: Vec<String> = Vec::new();
    let mut i: usize = 0;
    while i < tags.len()
        invariant
            registry.wf(),
            d == registry.dynamic_aliases(),
            i <= tags.len(),
            out.deep_view() == without_concept(d, tags.deep_view().take(i as int), concept@),
        decreases tags.len() - i,
    {
        proof {
            let t = tags.deep_view().take(i + 1);
            assert(t.drop_last() =~= tags.deep_view().take(i as int));
            assert(t.last() == tags@[i as int]@);
        }
        if !tag_matches_concept(registry, tags[i].as_str(), concept) {
            let ghost before = out.deep_view();
            out.push(tags[i].clone());
            assert(out.deep_view() =~= before.push(tags@[i as int]@));
        }
        i = i + 1;
    }
    assert(tags.deep_view().take(tags.len() as int) =~= tags.deep_view());
    out
}

/// Whether some tag names `concept` (see `any_concept`).
pub fn has_concept(registry: &TagRegistry, tags: &Vec<String>, concept: &str) -> (r: bool)
    requires
        registry.wf(),
    ensures
        r == any_concept(registry.dynamic_aliases(), tags.deep_view(), concept@),
{
    let mut i: usize = 0;
    while i < tags.len()
        invariant
            registry.wf(),
            i <= tags.len(),
            forall|k: int|
                0 <= k < i ==> !tag_matches_spec(
                    registry.dynamic_aliases(),
                    #[trigger] tags.deep_view()[k],
                    concept@,
                ),
        decreases tags.len() - i,
    {
        if tag_matches_concept(registry, tags[i].as_str(), concept) {
            assert(tags.deep_view()[i as int] == tags@[i as int]@);
            return true;
        }
        i = i + 1;
    }
    false
}

/// The tags once text is known to be present: no "no text" tag, and a
/// "has text" tag, added at the end unless one is already there.
pub open spec fn with_text_mark(d: Map<Seq<char>, Seq<char>>, tags: Seq<Seq<char>>) -> Seq<Seq<char>> {
    let kept = without_concept(d, tags, "无字图"@);
    if any_concept(d, kept, "有字图"@) {
        kept
    } else {
        kept.push("有字图"@)
    }
}

/// Marks a tag list as describing an image with text (see
/// `with_text_mark`); also tells whether the "has text" tag was added.
pub fn mark_text_present(registry: &TagRegistry, tags: &Vec<String>) -> (r: (Vec<String>, bool))
    requires
        registry.wf(),
    ensures
        r.0.deep_view() == with_text_mark(registry.dynamic_aliases(), tags.deep_view()),
        r.1 == !any_concept(
            registry.dynamic_aliases(),
            without_concept(registry.dynamic_aliases(), tags.deep_view(), "无字图"@),
            "有字图"@,
        ),
{
    let mut kept = remove_concept(registry, tags, "无字图");
    if has_concept(registry, &kept, "有字图") {
        (kept, false)
    } else {
        let ghost before = kept.deep_view();
        kept.push("有字图".to_owned());
        assert(kept.deep_view() =~= before.push("有字图"@));
        (kept, true)
    }
}

/// The markers of program source or editor help text in OCR text.
pub open spec fn code_markers() -> Seq<Seq<char>> {
    seq![
        "public class"@, "public void"@, "private boolean"@, "import java"@, "vim命令"@,
        "normal mode"@, "insert mode"@, "split window"@, "function("@, "console.log"@,
        "#include <"@, "fn main"@,
    ]
}

/// Whether OCR text, lower-cased, holds one of the code markers.
pub open spec fn looks_like_code_spec(text: Seq<char>) -> bool {
    let lower = crate::unicode::unicode_lowercase(text);
    exists|k: int| 0 <= k < code_markers().len() && contains_seq(lower, #[trigger] code_markers()[k])
}

/// OCR text whose lower-cased form holds any of the source-code markers
/// (`public class`, `public void`, `private boolean`, `import java`,
/// `vim命令`, `normal mode`, `insert mode`, `split window`, `function(`,
/// `console.log`, `#include <`, `fn main`) reads as code.
pub proof fn law_code_markers_read_as_code(text: Seq<char>)
    ensures
        ({
            let l = crate::unicode::unicode_lowercase(text);
            &&& contains_seq(l, "public class"@) ==> looks_like_code_spec(text)
            &&& contains_seq(l, "public void"@) ==> looks_like_code_spec(text)
            &&& contains_seq(l, "private boolean"@) ==> looks_like_code_spec(text)
            &&& contains_seq(l, "import java"@) ==> looks_like_code_spec(text)
            &&& contains_seq(l, "vim命令"@) ==> looks_like_code_spec(text)
            &&& contains_seq(l, "normal mode"@) ==> looks_like_code_spec(text)
            &&& contains_seq(l, "insert mode"@) ==> looks_like_code_spec(text)
            &&& contains_seq(l, "split window"@) ==> looks_like_code_spec(text)
            &&& contains_seq(l, "function("@) ==> looks_like_code_spec(text)
            &&& contains_seq(l, "console.log"@) ==> looks_like_code_spec(text)
            &&& contains_seq(l, "#include <"@) ==> looks_like_code_spec(text)
            &&& contains_seq(l, "fn main"@) ==> looks_like_code_spec(text)
        }),
{
    let m = code_markers();
    assert(m[0] == "public class"@);
    assert(m[1] == "public void"@);
    assert(m[2] == "private boolean"@);
    assert(m[3] == "import java"@);
    assert(m[4] == "vim命令"@);
    assert(m[5] == "normal mode"@);
    assert(m[6] == "insert mode"@);
    assert(m[7] == "split window"@);
    assert(m[8] == "function("@);
    assert(m[9] == "console.log"@);
    assert(m[10] == "#include <"@);
    assert(m[11] == "fn main"@);
}

/// Whether OCR text looks like program source (see `looks_like_code_spec`).
pub fn looks_like_code(text: &str) -> (r: bool)
    ensures
        r == looks_like_code_spec(text@),
{
    let lower = crate::unicode::lowercase_string(text);
    let l = chars_of(lower.as_str());
    let markers: [&str; 12] = [
        "public class", "public void", "private boolean", "import java", "vim命令", "normal mode",
        "insert mode", "split window", "function(", "console.log", "#include <", "fn main",
    ];
    assert(views_of(markers@) =~= code_markers());
    let mut i: usize = 0;
    while i < 12
        invariant
            l@ == crate::unicode::unicode_lowercase(text@),
            views_of(markers@) == code_markers(),
            i <= 12,
            forall|k: int| 0 <= k < i ==> !contains_seq(l@, #[trigger] code_markers()[k]),
        decreases 12 - i,
    {
        if contains_chars(&l, &chars_of(markers[i])) {
            assert(code_markers()[i as int] == markers@[i as int]@);
            return true;
        }
        assert(code_markers()[i as int] == markers@[i as int]@);
        i = i + 1;
    }
    false
}

/// Whether a text holds more than whitespace.
pub open spec fn text_present(s: Seq<char>) -> bool {
    trim(s).len() > 0
}

/// What OCR text changes in the semantic tags of an image.
pub struct OcrCalibration {
    /// Text is present, so the image is known to bear text.
    pub has_text: bool,
    /// The text reads as program source: the photo type becomes a code
    /// screenshot.
    pub code_screenshot: bool,
    /// The semantic tags after the change.
    pub clip_tags: Vec<String>,
    /// The tags added because of the text, in order.
    pub forced: Vec<String>,
}

/// The calibration by OCR text of the semantic tags, as views: with text,
/// the tags are marked as bearing text; with code-like text, a code
/// screenshot tag replaces any chat screenshot tag unless one is there.
pub open spec fn ocr_calibration_spec(
    d: Map<Seq<char>, Seq<char>>,
    clip: Seq<Seq<char>>,
    ocr: Seq<char>,
) -> (bool, bool, Seq<Seq<char>>, Seq<Seq<char>>) {
    if !text_present(ocr) {
        (false, false, clip, Seq::empty())
    } else {
        let marked = with_text_mark(d, clip);
        let forced1 = if any_concept(d, without_concept(d, clip, "无字图"@), "有字图"@) {
            Seq::<Seq<char>>::empty()
        } else {
            seq!["有字图"@]
        };
        let code = looks_like_code_spec(ocr);
        if code && !any_concept(d, marked, "代码截图"@) {
            (
                true,
                true,
                without_concept(d, marked, "聊天截图"@).push("代码截图"@),
                forced1.push("代码截图"@),
            )
        } else {
            (true, code, marked, forced1)
        }
    }
}

/// OCR text that is present and reads as code makes the image a code
/// screenshot: the code flag is set and a code-screenshot tag is among the
/// resulting tags; text that is present always marks the image as bearing
/// text, and blank text changes nothing.
pub proof fn law_code_text_makes_code_screenshot(
    d: Map<Seq<char>, Seq<char>>,
    clip: Seq<Seq<char>>,
    ocr: Seq<char>,
)
    ensures
        text_present(ocr) && looks_like_code_spec(ocr) ==> {
            let r = ocr_calibration_spec(d, clip, ocr);
            &&& r.1
            &&& any_concept(d, r.2, "代码截图"@)
        },
        text_present(ocr) ==> ocr_calibration_spec(d, clip, ocr).0,
        !text_present(ocr) ==> ocr_calibration_spec(d, clip, ocr) == (false, false, clip, Seq::<Seq<char>>::empty()),
{
    if text_present(ocr) && looks_like_code_spec(ocr) {
        let marked = with_text_mark(d, clip);
        if !any_concept(d, marked, "代码截图"@) {
            let t = without_concept(d, marked, "聊天截图"@).push("代码截图"@);
            crate::tag_identity::law_tag_matches_reflexive(d, "代码截图"@);
            assert(t[t.len() - 1] == "代码截图"@);
            assert(tag_matches_spec(d, t[t.len() - 1], "代码截图"@));
        }
    }
}

/// Calibrates the semantic tags of an image by its OCR text (see
/// `ocr_calibration_spec`).
pub fn calibrate_with_ocr(registry: &TagRegistry, clip_tags: &Vec<String>, ocr_text: &str) -> (r:
    OcrCalibration)
    requires
        registry.wf(),
    ensures
        (r.has_text, r.code_screenshot, r.clip_tags.deep_view(), r.forced.deep_view())
            == ocr_calibration_spec(registry.dynamic_aliases(), clip_tags.deep_view(), ocr_text@),
{
    let t = trim_chars(&chars_of(ocr_text));
    if t.len() == 0 {
        return OcrCalibration {
            has_text: false,
            code_screenshot: false,
            clip_tags: crate::strlist::clone_strings(clip_tags),
            forced: Vec::new(),
        };
    }
    let (marked, added) = mark_text_present(registry, clip_tags);
    let mut forced: Vec<String> = Vec::new();
    if added {
        forced.push("有字图".to_owned());
    }
    proof {
        if added {
            assert(forced.deep_view() =~= seq!["有字图"@]);
        } else {
            assert(forced.deep_view() =~= Seq::<Seq<char>>::empty());
        }
    }
    let code = looks_like_code(ocr_text);
    if code && !has_concept(registry, &marked, "代码截图") {
        let mut tags = remove_concept(registry, &marked, "聊天截图");
        let ghost before = tags.deep_view();
        tags.push("代码截图".to_owned());
        assert(tags.deep_view() =~= before.push("代码截图"@));
        let ghost fbefore = forced.deep_view();
        forced.push("代码截图".to_owned());
        assert(forced.deep_view() =~= fbefore.push("代码截图"@));
        OcrCalibration { has_text: true, code_screenshot: true, clip_tags: tags, forced }
    } else {
        OcrCalibration { has_text: true, code_screenshot: code, clip_tags: marked, forced }
    }
}

/// `base` followed by each tag of `extra` that is not yet in the list, in
/// order.
pub open spec fn add_missing(base: Seq<Seq<char>>, extra: Seq<Seq<char>>) -> Seq<Seq<char>>
    decreases extra.len(),
{
    if extra.len() == 0 {
        base
    } else {
        let r = add_missing(base, extra.drop_last());
        if r.contains(extra.last()) {
            r
        } else {
            r.push(extra.last())
        }
    }
}

/// The tags of mutually exclusive group winners `(tag, group)`.
pub open spec fn mutual_tags(mutual: Seq<(Seq<char>, Seq<char>)>) -> Seq<Seq<char>> {
    mutual.map_values(|p: (Seq<char>, Seq<char>)| p.0)
}

/// Whether the winner of group `group` names the concept `c`.
pub open spec fn group_names(
    d: Map<Seq<char>, Seq<char>>,
    mutual: Seq<(Seq<char>, Seq<char>)>,
    group: Seq<char>,
    c: Seq<char>,
) -> bool {
    exists|i: int|
        0 <= i < mutual.len() && (#[trigger] mutual[i]).1 == group && tag_matches_spec(
            d,
            mutual[i].0,
            c,
        )
}

/// The physical-rule tags merged with the mutually exclusive group
/// winners `(tag, group)`: without winners, only the text mark applies;
/// with them, the winners are added, the colour winner removes the
/// opposite colour tag, and text presence (or else the text winner) settles
/// the text tags.
pub open spec fn merge_mutual_spec(
    d: Map<Seq<char>, Seq<char>>,
    rules: Seq<Seq<char>>,
    mutual: Seq<(Seq<char>, Seq<char>)>,
    has_text: bool,
) -> Seq<Seq<char>> {
    if mutual.len() == 0 {
        if has_text {
            with_text_mark(d, rules)
        } else {
            rules
        }
    } else {
        let merged = add_missing(rules, mutual_tags(mutual));
        let colored = if group_names(d, mutual, "色彩模式"@, "全彩"@) {
            without_concept(d, merged, "黑白"@)
        } else if group_names(d, mutual, "色彩模式"@, "黑白"@) {
            without_concept(d, merged, "全彩"@)
        } else {
            merged
        };
        if has_text {
            with_text_mark(d, colored)
        } else if group_names(d, mutual, "文字存在性"@, "有字图"@) {
            without_concept(d, colored, "无字图"@)
        } else if group_names(d, mutual, "文字存在性"@, "无字图"@) {
            without_concept(d, colored, "有字图"@)
        } else {
            colored
        }
    }
}

/// Whether the winner of `group` names `concept`.
fn group_names_exec(
    registry: &TagRegistry,
    mutual: &Vec<(String, String)>,
    group: &str,
    concept: &str,
) -> (r: bool)
    requires
        registry.wf(),
    ensures
        r == group_names(registry.dynamic_aliases(), mutual.deep_view(), group@, concept@),
{
    let g = chars_of(group);
    let mut i: usize = 0;
    while i < mutual.len()
        invariant
            registry.wf(),
            g@ == group@,
            i <= mutual.len(),
            forall|k: int|
                0 <= k < i ==> !((#[trigger] mutual.deep_view()[k]).1 == group@ && tag_matches_spec(
                    registry.dynamic_aliases(),
                    mutual.deep_view()[k].0,
                    concept@,
                )),
        decreases mutual.len() - i,
    {
        let ghost e = mutual.deep_view()[i as int];
        assert(e.0 == mutual@[i as int].0@ && e.1 == mutual@[i as int].1@);
        if chars_eq(&chars_of(mutual[i].1.as_str()), &g) && tag_matches_concept(
            registry,
            mutual[i].0.as_str(),
            concept,
        ) {
            return true;
        }
        i = i + 1;
    }
    false
}

/// Merges the physical-rule tags with the mutually exclusive group winners
/// `(tag, group)` (see `merge_mutual_spec`).
pub fn merge_mutual_tags(
    registry: &TagRegistry,
    rules: &Vec<String>,
    mutual: &Vec<(String, String)>,
    has_text: bool,
) -> (r: Vec<String>)
    requires
        registry.wf(),
    ensures
        r.deep_view() == merge_mutual_spec(
            registry.dynamic_aliases(),
            rules.deep_view(),
            mutual.deep_view(),
            has_text,
        ),
{
    let ghost d = registry.dynamic_aliases();
    if mutual.len() == 0 {
        if has_text {
            return mark_text_present(registry, rules).0;
        } else {
            return crate::strlist::clone_strings(rules);
        }
    }
    let ghost tv = mutual_tags(mutual.deep_view());
    let mut merged = crate::strlist::clone_strings(rules);
    let mut i: usize = 0;
    while i < mutual.len()
        invariant
            i <= mutual.len(),
            tv == mutual_tags(mutual.deep_view()),
            merged.deep_view() == add_missing(rules.deep_view(), tv.take(i as int)),
        decreases mutual.len() - i,
    {
        proof {
            let t = tv.take(i + 1);
            assert(t.drop_last() =~= tv.take(i as int));
            assert(t.last() == mutual@[i as int].0@);
        }
        crate::strlist::push_unique(&mut merged, mutual[i].0.clone());
        i = i + 1;
    }
    assert(tv.take(mutual.len() as int) =~= tv);
    let colored = if group_names_exec(registry, mutual, "色彩模式", "全彩") {
        remove_concept(registry, &merged, "黑白")
    } else if group_names_exec(registry, mutual, "色彩模式", "黑白") {
        remove_concept(registry, &merged, "全彩")
    } else {
        merged
    };
    if has_text {
        mark_text_present(registry, &colored).0
    } else if group_names_exec(registry, mutual, "文字存在性", "有字图") {
        remove_concept(registry, &colored, "无字图")
    } else if group_names_exec(registry, mutual, "文字存在性", "无字图") {
        remove_concept(registry, &colored, "有字图")
    } else {
        colored
    }
}

/// The tag of the first winner of `group`.
pub open spec fn first_in_group(mutual: Seq<(Seq<char>, Seq<char>)>, group: Seq<char>) -> Option<
    Seq<char>,
>
    decreases mutual.len(),
{
    if mutual.len() == 0 {
        None
    } else if mutual[0].1 == group {
        Some(mutual[0].0)
    } else {
        first_in_group(mutual.drop_first(), group)
    }
}

/// The photo type refined by the group winners: a screenshot scene
/// replaces no type or a plain screenshot; failing that, a photo subject
/// replaces no type or a plain photo; failing that, the content form fills
/// a missing type.
pub open spec fn refine_photo_type_spec(
    photo_type: Option<Seq<char>>,
    mutual: Seq<(Seq<char>, Seq<char>)>,
) -> Option<Seq<char>> {
    match first_in_group(mutual, "截图场景细分"@) {
        Some(s) => if photo_type is None || photo_type == Some("截图"@) {
            Some(s)
        } else {
            photo_type
        },
        None => match first_in_group(mutual, "摄影题材细分"@) {
            Some(s) => if photo_type is None || photo_type == Some("摄影照片"@) {
                Some(s)
            } else {
                photo_type
            },
            None => match first_in_group(mutual, "内容形态"@) {
                Some(s) => if photo_type is None {
                    Some(s)
                } else {
                    photo_type
                },
                None => photo_type,
            },
        },
    }
}

fn first_in_group_exec(mutual: &Vec<(String, String)>, group: &str) -> (r: Option<String>)
    ensures
        crate::extract_plan::opt_view(r) == first_in_group(mutual.deep_view(), group@),
{
    let g = chars_of(group);
    let ghost mv = mutual.deep_view();
    assert(mv.skip(0) =~= mv);
    let mut i: usize = 0;
    while i < mutual.len()
        invariant
            g@ == group@,
            mv == mutual.deep_view(),
            i <= mutual.len(),
            first_in_group(mv, group@) == first_in_group(mv.skip(i as int), group@),
        decreases mutual.len() - i,
    {
        let ghost rest = mv.skip(i as int);
        assert(rest[0] == mv[i as int]);
        assert(rest.drop_first() =~= mv.skip(i + 1));
        assert(mv[i as int].1 == mutual@[i as int].1@ && mv[i as int].0 == mutual@[i as int].0@);
        if chars_eq(&chars_of(mutual[i].1.as_str()), &g) {
            return Some(mutual[i].0.clone());
        }
        i = i + 1;
    }
    assert(mv.skip(mutual.len() as int).len() == 0);
    None
}

fn is_text(s: &String, lit: &str) -> (r: bool)
    ensures
        r == (s@ == lit@),
{
    chars_eq(&chars_of(s.as_str()), &chars_of(lit))
}

/// Refines a photo type by the group winners (see
/// `refine_photo_type_spec`).
pub fn refine_photo_type(photo_type: Option<String>, mutual: &Vec<(String, String)>) -> (r: Option<
    String,
>)
    ensures
        crate::extract_plan::opt_view(r) == refine_photo_type_spec(
            crate::extract_plan::opt_view(photo_type),
            mutual.deep_view(),
        ),
{
    match first_in_group_exec(mutual, "截图场景细分") {
        Some(s) => {
            let replace = match &photo_type {
                None => true,
                Some(p) => is_text(p, "截图"),
            };
            if replace {
                Some(s)
            } else {
                photo_type
            }
        },
        None => match first_in_group_exec(mutual, "摄影题材细分") {
            Some(s) => {
                let replace = match &photo_type {
                    None => true,
                    Some(p) => is_text(p, "摄影照片"),
                };
                if replace {
                    Some(s)
                } else {
                    photo_type
                }
            },
            None => match first_in_group_exec(mutual, "内容形态") {
                Some(s) => if photo_type.is_none() {
                    Some(s)
                } else {
                    photo_type
                },
                None => photo_type,
            },
        },
    }
}

/// The engine a detected tag is credited to.
#[derive(Clone, Copy, PartialEq, Eq, Debug, Structural)]
pub enum TagEngine {
    Clip,
    Physical,
    Nsfw,
    Quality,
    Ram,
    MutualGroup,
    Ocr,
}

impl TagEngine {
    /// The engine's priority: OCR facts over group winners over physical
    /// rules over the tagging model over semantic tags over safety and
    /// quality tags.
    pub open spec fn priority(self) -> nat {
        match self {
            TagEngine::Ocr => 6,
            TagEngine::MutualGroup => 5,
            TagEngine::Physical => 4,
            TagEngine::Ram => 3,
            TagEngine::Clip => 2,
            TagEngine::Nsfw => 1,
            TagEngine::Quality => 1,
        }
    }

    /// The engine's name in results.
    pub open spec fn name_spec(self) -> Seq<char> {
        match self {
            TagEngine::Ocr => "ocr"@,
            TagEngine::MutualGroup => "mutual_group"@,
            TagEngine::Physical => "physical"@,
            TagEngine::Ram => "ram"@,
            TagEngine::Clip => "clip"@,
            TagEngine::Nsfw => "nsfw"@,
            TagEngine::Quality => "quality"@,
        }
    }

    /// The engine's name in results (see `name_spec`).
    pub fn name(&self) -> (r: &'static str)
        ensures
            r@ == self.name_spec(),
    {
        match self {
            TagEngine::Ocr => "ocr",
            TagEngine::MutualGroup => "mutual_group",
            TagEngine::Physical => "physical",
            TagEngine::Ram => "ram",
            TagEngine::Clip => "clip",
            TagEngine::Nsfw => "nsfw",
            TagEngine::Quality => "quality",
        }
    }
}

/// The tag lists of each engine.
pub struct TagSources {
    pub clip: Vec<String>,
    pub physical: Vec<String>,
    pub nsfw: Vec<String>,
    pub quality: Vec<String>,
    pub ram: Vec<String>,
    pub mutual: Vec<String>,
    pub ocr: Vec<String>,
}

impl TagSources {
    /// Whether `engine` produced `name`.
    pub open spec fn produced(&self, engine: TagEngine, name: Seq<char>) -> bool {
        match engine {
            TagEngine::Clip => self.clip.deep_view().contains(name),
            TagEngine::Physical => self.physical.deep_view().contains(name),
            TagEngine::Nsfw => self.nsfw.deep_view().contains(name),
            TagEngine::Quality => self.quality.deep_view().contains(name),
            TagEngine::Ram => self.ram.deep_view().contains(name),
            TagEngine::MutualGroup => self.mutual.deep_view().contains(name),
            TagEngine::Ocr => self.ocr.deep_view().contains(name),
        }
    }

    /// The engine credited with `name`: the highest-priority engine that
    /// produced it; between safety and quality tags, safety comes first.
    pub open spec fn credited_spec(&self, name: Seq<char>) -> Option<TagEngine> {
        if self.produced(TagEngine::Ocr, name) {
            Some(TagEngine::Ocr)
        } else if self.produced(TagEngine::MutualGroup, name) {
            Some(TagEngine::MutualGroup)
        } else if self.produced(TagEngine::Physical, name) {
            Some(TagEngine::Physical)
        } else if self.produced(TagEngine::Ram, name) {
            Some(TagEngine::Ram)
        } else if self.produced(TagEngine::Clip, name) {
            Some(TagEngine::Clip)
        } else if self.produced(TagEngine::Nsfw, name) {
            Some(TagEngine::Nsfw)
        } else if self.produced(TagEngine::Quality, name) {
            Some(TagEngine::Quality)
        } else {
            None
        }
    }

    /// The engine credited with a tag (see `credited_spec`).
    pub fn credited_engine(&self, name: &String) -> (r: Option<TagEngine>)
        ensures
            r == self.credited_spec(name@),
    {
        if contains_string(&self.ocr, name) {
            Some(TagEngine::Ocr)
        } else if contains_string(&self.mutual, name) {
            Some(TagEngine::MutualGroup)
        } else if contains_string(&self.physical, name) {
            Some(TagEngine::Physical)
        } else if contains_string(&self.ram, name) {
            Some(TagEngine::Ram)
        } else if contains_string(&self.clip, name) {
            Some(TagEngine::Clip)
        } else if contains_string(&self.nsfw, name) {
            Some(TagEngine::Nsfw)
        } else if contains_string(&self.quality, name) {
            Some(TagEngine::Quality)
        } else {
            None
        }
    }
}

/// Whether the security level is raised to confidential: a sensitive type
/// was found, a safety tag names pornography or an adult rating, or the
/// content rating is adult.
pub open spec fn confidential_spec(
    d: Map<Seq<char>, Seq<char>>,
    has_sensitive: bool,
    nsfw: Seq<Seq<char>>,
    rating: Option<Seq<char>>,
) -> bool {
    ||| has_sensitive
    ||| any_concept(d, nsfw, "色情"@)
    ||| any_concept(d, nsfw, "R-18"@)
    ||| any_concept(d, nsfw, "R-18G"@)
    ||| rating == Some("r18"@)
    ||| rating == Some("r18g"@)
}

/// Adult content ratings and sensitive types force the confidential level,
/// whatever else is known: a rating of exactly `r18` or `r18g`, or a
/// sensitive type, makes the level confidential for every dictionary and
/// safety-tag list; without a sensitive type and safety tags, only those
/// two ratings do.
/// A safety tag naming pornography or an adult rating (`色情`, `R-18`,
/// `R-18G`) makes the level confidential, whatever else is known.
pub proof fn law_adult_content_is_confidential(
    d: Map<Seq<char>, Seq<char>>,
    has_sensitive: bool,
    nsfw: Seq<Seq<char>>,
    rating: Option<Seq<char>>,
    t: Seq<char>,
)
    requires
        nsfw.contains(t),
    ensures
        tag_matches_spec(d, t, "色情"@) ==> confidential_spec(d, has_sensitive, nsfw, rating),
        tag_matches_spec(d, t, "R-18"@) ==> confidential_spec(d, has_sensitive, nsfw, rating),
        tag_matches_spec(d, t, "R-18G"@) ==> confidential_spec(d, has_sensitive, nsfw, rating),
{
    let k = choose|k: int| 0 <= k < nsfw.len() && nsfw[k] == t;
    assert(nsfw[k] == t);
}

pub proof fn law_adult_rating_is_confidential(
    d: Map<Seq<char>, Seq<char>>,
    has_sensitive: bool,
    nsfw: Seq<Seq<char>>,
    rating: Option<Seq<char>>,
)
    ensures
        confidential_spec(d, has_sensitive, nsfw, Some("r18g"@)),
        confidential_spec(d, has_sensitive, nsfw, Some("r18"@)),
        confidential_spec(d, true, nsfw, rating),
        confidential_spec(d, false, Seq::empty(), rating) <==> (rating == Some("r18"@) || rating == Some(
            "r18g"@,
        )),
{
}

/// Whether the security level must be confidential (see
/// `confidential_spec`).
pub fn must_be_confidential(
    registry: &TagRegistry,
    has_sensitive: bool,
    nsfw_tags: &Vec<String>,
    content_rating: &Option<String>,
) -> (r: bool)
    requires
        registry.wf(),
    ensures
        r == confidential_spec(
            registry.dynamic_aliases(),
            has_sensitive,
            nsfw_tags.deep_view(),
            crate::extract_plan::opt_view(*content_rating),
        ),
{
    let adult_rating = match content_rating {
        Some(c) => is_text(c, "r18") || is_text(c, "r18g"),
        None => false,
    };
    has_sensitive || has_concept(registry, nsfw_tags, "色情") || has_concept(registry, nsfw_tags, "R-18")
        || has_concept(registry, nsfw_tags, "R-18G") || adult_rating
}

/// The language of a request as a display label: `zh…` or `cmn…`
/// (ASCII case ignored) is Chinese, `en…` English, others have none.
pub open spec fn language_label_spec(lang: Option<Seq<char>>) -> Option<Seq<char>> {
    match lang {
        Some(l) => {
            let lower = l.map_values(|c: char| crate::taxonomy::ascii_lower(c));
            if "zh"@.is_prefix_of(lower) || "cmn"@.is_prefix_of(lower) {
                Some("中文"@)
            } else if "en"@.is_prefix_of(lower) {
                Some("英文"@)
            } else {
                None
            }
        },
        None => None,
    }
}

/// The display label of a request language (see `language_label_spec`).
pub fn language_label(lang: Option<&str>) -> (r: Option<String>)
    ensures
        crate::extract_plan::opt_view(r) == language_label_spec(
            match lang {
                Some(l) => Some(l@),
                None => None,
            },
        ),
{
    match lang {
        None => None,
        Some(l) => {
            let v = chars_of(l);
            let mut lower: Vec<char> = Vec::new();
            let mut i: usize = 0;
            while i < v.len()
                invariant
                    v@ == l@,
                    i <= v@.len(),
                    lower@ == v@.take(i as int).map_values(|c: char| crate::taxonomy::ascii_lower(c)),
                decreases v.len() - i,
            {
                let c = v[i];
                let lc = if 'A' <= c && c <= 'Z' {
                    (((c as u32) + 32) as u8) as char
                } else {
                    c
                };
                assert(lc == crate::taxonomy::ascii_lower(c));
                lower.push(lc);
                assert(lower@ =~= v@.take(i + 1).map_values(|c: char| crate::taxonomy::ascii_lower(c)));
                i = i + 1;
            }
            assert(v@.take(v@.len() as int) =~= v@);
            if starts_with_str(&lower, "zh") || starts_with_str(&lower, "cmn") {
                Some("中文".to_owned())
            } else if starts_with_str(&lower, "en") {
                Some("英文".to_owned())
            } else {
                None
            }
        },
    }
}

/// The present parts, in order.
pub open spec fn present_parts(parts: Seq<Option<Seq<char>>>) -> Seq<Seq<char>>
    decreases parts.len(),
{
    if parts.len() == 0 {
        Seq::empty()
    } else {
        let r = present_parts(parts.drop_last());
        match parts.last() {
            Some(p) => r.push(p),
            None => r,
        }
    }
}

/// Parts joined with single spaces.
pub open spec fn join_spaced(parts: Seq<Seq<char>>) -> Seq<char>
    decreases parts.len(),
{
    if parts.len() == 0 {
        Seq::empty()
    } else if parts.len() == 1 {
        parts[0]
    } else {
        join_spaced(parts.drop_last()) + " "@ + parts.last()
    }
}

/// The address of a place from its country, province and city: the parts
/// present, joined with spaces; none when no part is present.
pub fn place_address(parts: &Vec<Option<String>>) -> (r: Option<String>)
    ensures
        crate::extract_plan::opt_view(r) == (if present_parts(
            parts@.map_values(|o: Option<String>| crate::extract_plan::opt_view(o)),
        ).len() == 0 {
            None::<Seq<char>>
        } else {
            Some(
                join_spaced(
                    present_parts(
                        parts@.map_values(|o: Option<String>| crate::extract_plan::opt_view(o)),
                    ),
                ),
            )
        }),
{
    let ghost pv = parts@.map_values(|o: Option<String>| crate::extract_plan::opt_view(o));
    let mut out: Vec<char> = Vec::new();
    let mut count: usize = 0;
    let mut i: usize = 0;
    while i < parts.len()
        invariant
            pv == parts@.map_values(|o: Option<String>| crate::extract_plan::opt_view(o)),
            i <= parts.len(),
            count == present_parts(pv.take(i as int)).len(),
            count <= i,
            out@ == join_spaced(present_parts(pv.take(i as int))),
        decreases parts.len() - i,
    {
        proof {
            assert(pv.take(i + 1).drop_last() =~= pv.take(i as int));
            assert(pv.take(i + 1).last() == pv[i as int]);
        }
        match &parts[i] {
            Some(p) => {
                proof {
                    assert(pv[i as int] == Some(p@));
                    let prev = present_parts(pv.take(i as int));
                    assert(prev.push(p@).drop_last() =~= prev);
                }
                if count > 0 {
                    crate::text::extend_str(&mut out, " ");
                }
                crate::text::extend_str(&mut out, p.as_str());
                count = count + 1;
            },
            None => {
                assert(pv[i as int] is None);
            },
        }
        i = i + 1;
    }
    assert(pv.take(parts.len() as int) =~= pv);
    if count == 0 {
        None
    } else {
        Some(crate::text::string_of(&out))
    }
}

/// Which families a perceived file belongs to.
pub struct PerceptionKind {
    pub is_image: bool,
    pub is_video: bool,
    pub is_audio: bool,
}

/// Image extensions seen by perception.
pub open spec fn perceived_image_exts() -> Seq<Seq<char>> {
    seq!["png"@, "jpg"@, "jpeg"@, "webp"@, "gif"@, "bmp"@, "tiff"@]
}

/// Video extensions seen by perception.
pub open spec fn perceived_video_exts() -> Seq<Seq<char>> {
    seq!["mp4"@, "mkv"@, "mov"@, "avi"@, "wmv"@, "flv"@, "webm"@]
}

/// Audio extensions seen by perception.
pub open spec fn perceived_audio_exts() -> Seq<Seq<char>> {
    seq!["mp3"@, "wav"@, "flac"@, "aac"@, "ogg"@, "m4a"@, "wma"@, "opus"@, "ape"@, "aiff"@]
}

/// The families of a file with lower-case extension `ext` and MIME type
/// `mime`, by MIME prefix or extension.
pub open spec fn perception_kind_spec(ext: Seq<char>, mime: Seq<char>) -> PerceptionKind {
    PerceptionKind {
        is_image: "image/"@.is_prefix_of(mime) || perceived_image_exts().contains(ext),
        is_video: "video/"@.is_prefix_of(mime) || perceived_video_exts().contains(ext),
        is_audio: "audio/"@.is_prefix_of(mime) || perceived_audio_exts().contains(ext),
    }
}

/// The families of a perceived file (see `perception_kind_spec`).
pub fn perception_kind(ext: &str, mime: &str) -> (r: PerceptionKind)
    ensures
        r == perception_kind_spec(ext@, mime@),
{
    let e = chars_of(ext);
    let m = chars_of(mime);
    let images: [&str; 7] = ["png", "jpg", "jpeg", "webp", "gif", "bmp", "tiff"];
    assert(views_of(images@) =~= perceived_image_exts());
    let videos: [&str; 7] = ["mp4", "mkv", "mov", "avi", "wmv", "flv", "webm"];
    assert(views_of(videos@) =~= perceived_video_exts());
    let audios: [&str; 10] = ["mp3", "wav", "flac", "aac", "ogg", "m4a", "wma", "opus", "ape", "aiff"];
    assert(views_of(audios@) =~= perceived_audio_exts());
    PerceptionKind {
        is_image: starts_with_str(&m, "image/") || crate::extract_plan::in_names(&e, &images),
        is_video: starts_with_str(&m, "video/") || crate::extract_plan::in_names(&e, &videos),
        is_audio: starts_with_str(&m, "audio/") || crate::extract_plan::in_names(&e, &audios),
    }
}

/// Whether a sound or video is transcribed: only those, and unless the
/// request turns it off.
pub fn should_transcribe(kind: &PerceptionKind, enable_audio_transcript: Option<bool>) -> (r: bool)
    ensures
        r == ((kind.is_audio || kind.is_video) && match enable_audio_transcript {
            Some(b) => b,
            None => true,
        }),
{
    let enabled = match enable_audio_transcript {
        Some(b) => b,
        None => true,
    };
    (kind.is_audio || kind.is_video) && enabled
}

/// The status word of a watermark level: 2 heavy, 1 light, else none.
pub fn watermark_status(level: u8) -> (r: &'static str)
    ensures
        r@ == (if level == 2 {
            "heavy"@
        } else if level == 1 {
            "light"@
        } else {
            "none"@
        }),
{
    if level == 2 {
        "heavy"
    } else if level == 1 {
        "light"
    } else {
        "none"
    }
}

/// The status word of a mosaic level: 2 heavy, 1 thin, else none.
pub fn mosaic_status(level: u8) -> (r: &'static str)
    ensures
        r@ == (if level == 2 {
            "heavy"@
        } else if level == 1 {
            "thin"@
        } else {
            "none"@
        }),
{
    if level == 2 {
        "heavy"
    } else if level == 1 {
        "thin"
    } else {
        "none"
    }
}

/// The semantic tags of an image in which no text was detected lose the
/// tags that depend on lettering (posters and screenshots).
pub open spec fn gate_untexted_spec(
    d: Map<Seq<char>, Seq<char>>,
    tags: Seq<Seq<char>>,
    has_text: bool,
) -> Seq<Seq<char>> {
    if has_text {
        tags
    } else {
        without_concept(d, without_concept(d, tags, "海报宣发"@), "截图"@)
    }
}

/// Drops the lettering-dependent tags of an image without text (see
/// `gate_untexted_spec`).
pub fn gate_untexted_tags(registry: &TagRegistry, tags: &Vec<String>, has_text: bool) -> (r: Vec<
    String,
>)
    requires
        registry.wf(),
    ensures
        r.deep_view() == gate_untexted_spec(registry.dynamic_aliases(), tags.deep_view(), has_text),
{
    if has_text {
        crate::strlist::clone_strings(tags)
    } else {
        let a = remove_concept(registry, tags, "海报宣发");
        remove_concept(registry, &a, "截图")
    }
}

/// Whether the semantic tags describe drawn art (anime, comics,
/// illustration, hand drawing).
pub open spec fn anime_art_spec(d: Map<Seq<char>, Seq<char>>, tags: Seq<Seq<char>>) -> bool {
    ||| any_concept(d, tags, "二次元"@)
    ||| any_concept(d, tags, "动漫"@)
    ||| any_concept(d, tags, "插画"@)
    ||| any_concept(d, tags, "漫画"@)
    ||| any_concept(d, tags, "手绘"@)
}

/// Whether the semantic tags describe drawn art (see `anime_art_spec`).
pub fn is_anime_art(registry: &TagRegistry, tags: &Vec<String>) -> (r: bool)
    requires
        registry.wf(),
    ensures
        r == anime_art_spec(registry.dynamic_aliases(), tags.deep_view()),
{
    has_concept(registry, tags, "二次元") || has_concept(registry, tags, "动漫") || has_concept(
        registry,
        tags,
        "插画",
    ) || has_concept(registry, tags, "漫画") || has_concept(registry, tags, "手绘")
}

/// The page shape of drawn art, from its aspect ratio: a tall strip, a
/// page, or neither.
#[derive(Clone, Copy, PartialEq, Eq, Debug, Structural)]
pub enum ComicShape {
    Strip,
    Page,
    Other,
}

/// The comic-format tag added to the physical-rule tags of drawn art: a
/// strip comic or a page comic, once.
pub fn add_comic_format_tag(tags: &mut Vec<String>, is_anime_art: bool, shape: ComicShape)
    ensures
        final(tags).deep_view() == (if is_anime_art && shape == ComicShape::Strip {
            if old(tags).deep_view().contains("条漫"@) {
                old(tags).deep_view()
            } else {
                old(tags).deep_view().push("条漫"@)
            }
        } else if is_anime_art && shape == ComicShape::Page {
            if old(tags).deep_view().contains("页漫"@) {
                old(tags).deep_view()
            } else {
                old(tags).deep_view().push("页漫"@)
            }
        } else {
            old(tags).deep_view()
        }),
{
    if is_anime_art {
        match shape {
            ComicShape::Strip => crate::strlist::push_unique(tags, "条漫".to_owned()),
            ComicShape::Page => crate::strlist::push_unique(tags, "页漫".to_owned()),
            ComicShape::Other => {},
        }
    }
}

/// The first `n` tags (all of them when there are fewer).
pub fn first_tags(tags: &Vec<String>, n: usize) -> (r: Vec<String>)
    ensures
        r.deep_view() == tags.deep_view().take(if n < tags.len() { n as int } else { tags.len() as int }),
{
    let m = if n < tags.len() {
        n
    } else {
        tags.len()
    };
    let mut out: Vec<String> = Vec::new();
    let mut i: usize = 0;
    while i < m
        invariant
            m <= tags.len(),
            i <= m,
            out.deep_view() == tags.deep_view().take(i as int),
        decreases m - i,
    {
        let ghost before = out.deep_view();
        out.push(tags[i].clone());
        assert(out.deep_view() =~= before.push(tags@[i as int]@));
        assert(tags.deep_view().take(i + 1) =~= tags.deep_view().take(i as int).push(tags@[i as int]@));
        i = i + 1;
    }
    out
}

/// All detected tags, each once, in engine order: semantic, physical,
/// safety, quality, then tagging-model tags.
pub open spec fn detected_tags_spec(s: TagSources) -> Seq<Seq<char>> {
    crate::strlist::dedup_seq(
        s.clip.deep_view() + s.physical.deep_view() + s.nsfw.deep_view() + s.quality.deep_view()
            + s.ram.deep_view(),
    )
}

fn append_strings(dst: &mut Vec<String>, src: &Vec<String>)
    ensures
        final(dst).deep_view() == old(dst).deep_view() + src.deep_view(),
{
    let mut i: usize = 0;
    while i < src.len()
        invariant
            i <= src.len(),
            dst.deep_view() == old(dst).deep_view() + src.deep_view().take(i as int),
        decreases src.len() - i,
    {
        let ghost before = dst.deep_view();
        dst.push(src[i].clone());
        assert(dst.deep_view() =~= before.push(src@[i as int]@));
        assert(src.deep_view().take(i + 1) =~= src.deep_view().take(i as int).push(src@[i as int]@));
        assert(old(dst).deep_view() + src.deep_view().take(i + 1) =~= (old(dst).deep_view()
            + src.deep_view().take(i as int)).push(src@[i as int]@));
        i = i + 1;
    }
    assert(src.deep_view().take(src.len() as int) =~= src.deep_view());
}

impl TagSources {
    /// All detected tags (see `detected_tags_spec`).
    pub fn detected_tags(&self) -> (r: Vec<String>)
        ensures
            r.deep_view() == detected_tags_spec(*self),
    {
        let mut all: Vec<String> = Vec::new();
        append_strings(&mut all, &self.clip);
        append_strings(&mut all, &self.physical);
        append_strings(&mut all, &self.nsfw);
        append_strings(&mut all, &self.quality);
        append_strings(&mut all, &self.ram);
        assert(all.deep_view() =~= self.clip.deep_view() + self.physical.deep_view()
            + self.nsfw.deep_view() + self.quality.deep_view() + self.ram.deep_view());
        crate::strlist::dedup_keep_first(&all)
    }
}

/// The tags whose code is among `codes`, in order.
pub open spec fn with_codes_in(
    d: Map<Seq<char>, Seq<char>>,
    tags: Seq<Seq<char>>,
    codes: Seq<Seq<char>>,
) -> Seq<Seq<char>>
    decreases tags.len(),
{
    if tags.len() == 0 {
        Seq::empty()
    } else {
        let r = with_codes_in(d, tags.drop_last(), codes);
        if codes.contains(crate::tag_identity::tag_code_spec(d, tags.last())) {
            r.push(tags.last())
        } else {
            r
        }
    }
}

/// Keeps the tags whose code survived the gating (see `with_codes_in`).
pub fn keep_gated(registry: &TagRegistry, tags: &Vec<String>, codes: &Vec<String>) -> (r: Vec<String>)
    requires
        registry.wf(),
    ensures
        r.deep_view() == with_codes_in(registry.dynamic_aliases(), tags.deep_view(), codes.deep_view()),
{
    let ghost d = registry.dynamic_aliases();
    let mut out: Vec<String> = Vec::new();
    let mut i: usize = 0;
    while i < tags.len()
        invariant
            registry.wf(),
            d == registry.dynamic_aliases(),
            i <= tags.len(),
            out.deep_view() == with_codes_in(d, tags.deep_view().take(i as int), codes.deep_view()),
        decreases tags.len() - i,
    {
        proof {
            let t = tags.deep_view().take(i + 1);
            assert(t.drop_last() =~= tags.deep_view().take(i as int));
            assert(t.last() == tags@[i as int]@);
        }
        let code = crate::tag_identity::normalize_tag_to_code(registry, tags[i].as_str());
        if contains_string(codes, &code) {
            let ghost before = out.deep_view();
            out.push(tags[i].clone());
            assert(out.deep_view() =~= before.push(tags@[i as int]@));
        }
        i = i + 1;
    }
    assert(tags.deep_view().take(tags.len() as int) =~= tags.deep_view());
    out
}

/// The positions of the tagging-model items kept among the first `n`:
/// an item is dropped when a kept item before it has the same name,
/// ignoring ASCII case.
pub open spec fn kept_ram_positions(names: Seq<Seq<char>>, n: int) -> Seq<int>
    decreases n,
{
    if n <= 0 {
        Seq::empty()
    } else {
        let r = kept_ram_positions(names, n - 1);
        if exists|k: int|
            0 <= k < r.len() && crate::taxonomy::eq_ignore_ascii_case(
                names[#[trigger] r[k]],
                names[n - 1],
            ) {
            r
        } else {
            r.push(n - 1)
        }
    }
}

/// The name a detected code is shown under: the first detected name with
/// that code, else the code itself.
pub open spec fn name_for_code(
    d: Map<Seq<char>, Seq<char>>,
    names: Seq<Seq<char>>,
    code: Seq<char>,
) -> Seq<char>
    decreases names.len(),
{
    if names.len() == 0 {
        code
    } else if crate::tag_identity::tag_code_spec(d, names[0]) == code {
        names[0]
    } else {
        name_for_code(d, names.drop_first(), code)
    }
}

/// The `(code, name)` items added after the kept tagging-model items: each
/// detected code that no kept item and no earlier added item carries.
pub open spec fn added_items(
    d: Map<Seq<char>, Seq<char>>,
    taken: Seq<Seq<char>>,
    names: Seq<Seq<char>>,
    codes: Seq<Seq<char>>,
) -> Seq<(Seq<char>, Seq<char>)>
    decreases codes.len(),
{
    if codes.len() == 0 {
        Seq::empty()
    } else {
        let r = added_items(d, taken, names, codes.drop_last());
        let c = codes.last();
        if taken.contains(c) || r.map_values(|p: (Seq<char>, Seq<char>)| p.0).contains(c) {
            r
        } else {
            r.push((c, name_for_code(d, names, c)))
        }
    }
}

/// Which items make up the structured tag chain.
pub struct ChainPlan {
    /// The positions of the tagging-model items kept, in order.
    pub ram_kept: Vec<usize>,
    /// The `(code, name)` items added after them, in order.
    pub added: Vec<(String, String)>,
}

fn name_for_code_exec(registry: &TagRegistry, names: &Vec<String>, code: &String) -> (r: String)
    requires
        registry.wf(),
    ensures
        r@ == name_for_code(registry.dynamic_aliases(), names.deep_view(), code@),
{
    let ghost d = registry.dynamic_aliases();
    let ghost nv = names.deep_view();
    assert(nv.skip(0) =~= nv);
    let mut i: usize = 0;
    while i < names.len()
        invariant
            registry.wf(),
            d == registry.dynamic_aliases(),
            nv == names.deep_view(),
            i <= names.len(),
            name_for_code(d, nv, code@) == name_for_code(d, nv.skip(i as int), code@),
        decreases names.len() - i,
    {
        assert(nv.skip(i as int)[0] == names@[i as int]@);
        assert(nv.skip(i as int).drop_first() =~= nv.skip(i + 1));
        let c = crate::tag_identity::normalize_tag_to_code(registry, names[i].as_str());
        if c == *code {
            return names[i].clone();
        }
        i = i + 1;
    }
    assert(nv.skip(names.len() as int).len() == 0);
    code.clone()
}

/// Plans the structured tag chain: the tagging-model items `(name, code)`
/// kept once per name, then one item per remaining detected code (see
/// `kept_ram_positions` and `added_items`).
pub fn plan_chain_items(
    registry: &TagRegistry,
    ram: &Vec<(String, String)>,
    detected_names: &Vec<String>,
    detected_codes: &Vec<String>,
) -> (r: ChainPlan)
    requires
        registry.wf(),
    ensures
        r.ram_kept@.map_values(|i: usize| i as int) == kept_ram_positions(
            ram.deep_view().map_values(|p: (Seq<char>, Seq<char>)| p.0),
            ram@.len() as int,
        ),
        r.added.deep_view() == added_items(
            registry.dynamic_aliases(),
            kept_ram_positions(
                ram.deep_view().map_values(|p: (Seq<char>, Seq<char>)| p.0),
                ram@.len() as int,
            ).map_values(|i: int| ram.deep_view()[i].1),
            detected_names.deep_view(),
            detected_codes.deep_view(),
        ),
{
    let ghost d = registry.dynamic_aliases();
    let ghost names = ram.deep_view().map_values(|p: (Seq<char>, Seq<char>)| p.0);
    let mut kept: Vec<usize> = Vec::new();
    let mut kept_codes: Vec<String> = Vec::new();
    let mut i: usize = 0;
    while i < ram.len()
        invariant
            names == ram.deep_view().map_values(|p: (Seq<char>, Seq<char>)| p.0),
            i <= ram.len(),
            kept@.map_values(|x: usize| x as int) == kept_ram_positions(names, i as int),
            forall|k: int| 0 <= k < kept@.len() ==> kept@[k] < i,
            kept_codes.deep_view() == kept_ram_positions(names, i as int).map_values(
                |x: int| ram.deep_view()[x].1,
            ),
        decreases ram.len() - i,
    {
        let ghost kv = kept_ram_positions(names, i as int);
        let nm = chars_of(ram[i].0.as_str());
        assert(names[i as int] == ram@[i as int].0@);
        let mut dup = false;
        let mut j: usize = 0;
        while j < kept.len()
            invariant
                kept@.map_values(|x: usize| x as int) == kv,
                forall|k: int| 0 <= k < kept@.len() ==> kept@[k] < i,
                i < ram.len(),
                names == ram.deep_view().map_values(|p: (Seq<char>, Seq<char>)| p.0),
                nm@ == names[i as int],
                j <= kept.len(),
                dup == exists|k: int|
                    0 <= k < j && crate::taxonomy::eq_ignore_ascii_case(
                        names[#[trigger] kv[k]],
                        names[i as int],
                    ),
            decreases kept.len() - j,
        {
            let other = chars_of(ram[kept[j]].0.as_str());
            assert(kv[j as int] == kept@[j as int] as int);
            assert(names[kv[j as int]] == ram@[kept@[j as int] as int].0@);
            if crate::taxonomy::eq_ignore_ascii_case_exec(&other, &nm) {
                dup = true;
            }
            j = j + 1;
        }
        if !dup {
            let ghost before = kept_codes.deep_view();
            kept.push(i);
            kept_codes.push(ram[i].1.clone());
            proof {
                assert(kept@.map_values(|x: usize| x as int) =~= kv.push(i as int));
                assert(kept_codes.deep_view() =~= before.push(ram@[i as int].1@));
                assert(kv.push(i as int).map_values(|x: int| ram.deep_view()[x].1) =~= kv.map_values(
                    |x: int| ram.deep_view()[x].1,
                ).push(ram.deep_view()[i as int].1));
            }
        }
        i = i + 1;
    }
    let ghost taken = kept_codes.deep_view();
    let ghost cv = detected_codes.deep_view();
    let mut added: Vec<(String, String)> = Vec::new();
    let mut added_codes: Vec<String> = Vec::new();
    let mut k: usize = 0;
    while k < detected_codes.len()
        invariant
            registry.wf(),
            d == registry.dynamic_aliases(),
            taken == kept_codes.deep_view(),
            cv == detected_codes.deep_view(),
            k <= detected_codes.len(),
            added.deep_view() == added_items(d, taken, detected_names.deep_view(), cv.take(k as int)),
            added_codes.deep_view() == added.deep_view().map_values(
                |p: (Seq<char>, Seq<char>)| p.0,
            ),
        decreases detected_codes.len() - k,
    {
        proof {
            let t = cv.take(k + 1);
            assert(t.drop_last() =~= cv.take(k as int));
            assert(t.last() == detected_codes@[k as int]@);
        }
        let c = &detected_codes[k];
        if !contains_string(&kept_codes, c) && !contains_string(&added_codes, c) {
            let name = name_for_code_exec(registry, detected_names, c);
            let ghost before = added.deep_view();
            let ghost before_codes = added_codes.deep_view();
            added.push((c.clone(), name));
            added_codes.push(c.clone());
            proof {
                assert(added.deep_view() =~= before.push((c@, name@)));
                assert(added_codes.deep_view() =~= before_codes.push(c@));
                assert(before.push((c@, name@)).map_values(|p: (Seq<char>, Seq<char>)| p.0)
                    =~= before.map_values(|p: (Seq<char>, Seq<char>)| p.0).push(c@));
            }
        }
        k = k + 1;
    }
    assert(cv.take(detected_codes.len() as int) =~= cv);
    ChainPlan { ram_kept: kept, added }
}

proof fn lemma_without_concept_clean(d: Map<Seq<char>, Seq<char>>, tags: Seq<Seq<char>>, c: Seq<char>)
    ensures
        !any_concept(d, without_concept(d, tags, c), c),
    decreases tags.len(),
{
    if tags.len() > 0 {
        lemma_without_concept_clean(d, tags.drop_last(), c);
        let r = without_concept(d, tags.drop_last(), c);
        if !tag_matches_spec(d, tags.last(), c) {
            assert forall|i: int| 0 <= i < r.push(tags.last()).len() implies !tag_matches_spec(
                d,
                #[trigger] r.push(tags.last())[i],
                c,
            ) by {
                if i < r.len() {
                    assert(r.push(tags.last())[i] == r[i]);
                }
            }
        }
    }
}

/// Once text is known to be present, a tag list holds no "no text" tag
/// and holds a "has text" tag, whatever it held before (given that the two
/// names do not resolve to one concept).
pub proof fn law_text_mark_settles(d: Map<Seq<char>, Seq<char>>, tags: Seq<Seq<char>>)
    requires
        !tag_matches_spec(d, "有字图"@, "无字图"@),
    ensures
        !any_concept(d, with_text_mark(d, tags), "无字图"@),
        any_concept(d, with_text_mark(d, tags), "有字图"@),
{
    let kept = without_concept(d, tags, "无字图"@);
    lemma_without_concept_clean(d, tags, "无字图"@);
    if !any_concept(d, kept, "有字图"@) {
        let m = kept.push("有字图"@);
        crate::tag_identity::law_tag_matches_reflexive(d, "有字图"@);
        assert(m[kept.len() as int] == "有字图"@);
        assert forall|i: int| 0 <= i < m.len() implies !tag_matches_spec(d, #[trigger] m[i], "无字图"@) by {
            if i < kept.len() {
                assert(m[i] == kept[i]);
            }
        }
    }
}

} // verus!
