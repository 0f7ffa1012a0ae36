//! Text produced by document extraction: OCR blocks in Markdown, the
//! substitution of embedded-image placeholders, the truncation of long
//! text at a byte budget, PDF dates, and the text-file extensions.
use vstd::prelude::*;
use crate::text::{chars_of, extend_chars, extend_str, string_of, trim, trim_chars, occurs_at, contains_seq, decimal, decimal_chars};
use vstd::utf8::{encode_utf8, decode_utf8, is_char_boundary};
use vstd::string::StringSliceAdditionalSpecFns;
use crate::fact_tags::{find_exec, find_from, lemma_find_from_bound};

verus! {

/// Whether a (lower-case) extension names a plain-text or source-code file.
pub open spec fn plain_text_ext_spec(ext: Seq<char>) -> bool {
    ||| ext == "txt"@ ||| ext == "md"@ ||| ext == "json"@ ||| ext == "xml"@ ||| ext == "csv"@
    ||| ext == "log"@ ||| ext == "py"@ ||| ext == "ts"@ ||| ext == "tsx"@ ||| ext == "js"@
    ||| ext == "jsx"@ ||| ext == "rs"@ ||| ext == "c"@ ||| ext == "cpp"@ ||| ext == "h"@
    ||| ext == "hpp"@ ||| ext == "java"@ ||| ext == "go"@ ||| ext == "sh"@ ||| ext == "bat"@
    ||| ext == "ps1"@ ||| ext == "yml"@ ||| ext == "yaml"@ ||| ext == "toml"@ ||| ext == "ini"@
    ||| ext == "env"@ ||| ext == "css"@ ||| ext == "scss"@ ||| ext == "html"@ ||| ext == "htm"@
    ||| ext == "sql"@
}

/// Whether an extension names a plain-text or source-code file.
pub fn is_plain_text_or_code_ext(ext: &str) -> (r: bool)
    ensures
        r == plain_text_ext_spec(ext@),
{
    let names: [&str; 31] = [
        "txt", "md", "json", "xml", "csv", "log", "py", "ts", "tsx", "js", "jsx", "rs", "c", "cpp",
        "h", "hpp", "java", "go", "sh", "bat", "ps1", "yml", "yaml", "toml", "ini", "env", "css",
        "scss", "html", "htm", "sql",
    ];
    let e = chars_of(ext);
    let mut i: usize = 0;
    let mut found = false;
    while i < 31
        invariant
            names@ == seq![
                "txt", "md", "json", "xml", "csv", "log", "py", "ts", "tsx", "js", "jsx", "rs", "c",
                "cpp", "h", "hpp", "java", "go", "sh", "bat", "ps1", "yml", "yaml", "toml", "ini",
                "env", "css", "scss", "html", "htm", "sql",
            ],
            e@ == ext@,
            i <= 31,
            found == exists|k: int| 0 <= k < i && names@[k]@ == ext@,
        decreases 31 - i,
    {
        if crate::text::chars_eq(&e, &chars_of(names[i])) {
            found = true;
        }
        i = i + 1;
    }
    proof {
        let ns = names@;
        if plain_text_ext_spec(ext@) {
            assert(exists|k: int| 0 <= k < 31 && ns[k]@ == ext@) by {
                if ext@ == "txt"@ { assert(ns[0]@ == ext@); }
                else if ext@ == "md"@ { assert(ns[1]@ == ext@); }
                else if ext@ == "json"@ { assert(ns[2]@ == ext@); }
                else if ext@ == "xml"@ { assert(ns[3]@ == ext@); }
                else if ext@ == "csv"@ { assert(ns[4]@ == ext@); }
                else if ext@ == "log"@ { assert(ns[5]@ == ext@); }
                else if ext@ == "py"@ { assert(ns[6]@ == ext@); }
                else if ext@ == "ts"@ { assert(ns[7]@ == ext@); }
                else if ext@ == "tsx"@ { assert(ns[8]@ == ext@); }
                else if ext@ == "js"@ { assert(ns[9]@ == ext@); }
                else if ext@ == "jsx"@ { assert(ns[10]@ == ext@); }
                else if ext@ == "rs"@ { assert(ns[11]@ == ext@); }
                else if ext@ == "c"@ { assert(ns[12]@ == ext@); }
                else if ext@ == "cpp"@ { assert(ns[13]@ == ext@); }
                else if ext@ == "h"@ { assert(ns[14]@ == ext@); }
                else if ext@ == "hpp"@ { assert(ns[15]@ == ext@); }
                else if ext@ == "java"@ { assert(ns[16]@ == ext@); }
                else if ext@ == "go"@ { assert(ns[17]@ == ext@); }
                else if ext@ == "sh"@ { assert(ns[18]@ == ext@); }
                else if ext@ == "bat"@ { assert(ns[19]@ == ext@); }
                else if ext@ == "ps1"@ { assert(ns[20]@ == ext@); }
                else if ext@ == "yml"@ { assert(ns[21]@ == ext@); }
                else if ext@ == "yaml"@ { assert(ns[22]@ == ext@); }
                else if ext@ == "toml"@ { assert(ns[23]@ == ext@); }
                else if ext@ == "ini"@ { assert(ns[24]@ == ext@); }
                else if ext@ == "env"@ { assert(ns[25]@ == ext@); }
                else if ext@ == "css"@ { assert(ns[26]@ == ext@); }
                else if ext@ == "scss"@ { assert(ns[27]@ == ext@); }
                else if ext@ == "html"@ { assert(ns[28]@ == ext@); }
                else if ext@ == "htm"@ { assert(ns[29]@ == ext@); }
                else { assert(ns[30]@ == ext@); }
            }
        }
    }
    found
}

/// The lines of a text as `str::lines` gives them: split at `\n`, a `\r`
/// before the `\n` dropped, no line after a final `\n`.
pub open spec fn lines_spec(s: Seq<char>) -> Seq<Seq<char>>
    decreases s.len(),
{
    match find_from(s, seq!['\n'], 0) {
        Some(i) => {
            let seg = s.take(i);
            let line = if seg.len() > 0 && seg.last() == '\r' {
                seg.drop_last()
            } else {
                seg
            };
            if i + 1 >= s.len() {
                seq![line]
            } else {
                proof {
                    lemma_find_from_bound(s, seq!['\n'], 0);
                }
                seq![line] + lines_spec(s.skip(i + 1))
            }
        },
        None => if s.len() == 0 {
            Seq::empty()
        } else {
            seq![s]
        },
    }
}

/// The quoted lines of an OCR text, joined by an empty quote line.
pub open spec fn quoted_lines(ls: Seq<Seq<char>>) -> Seq<char>
    decreases ls.len(),
{
    if ls.len() == 0 {
        Seq::empty()
    } else if ls.len() == 1 {
        "> "@ + ls[0]
    } else {
        quoted_lines(ls.drop_last()) + "\n>\n"@ + "> "@ + ls.last()
    }
}

/// An OCR text as a Markdown block quote with a heading line; nothing for a
/// blank text.
pub open spec fn ocr_block_spec(ocr_text: Seq<char>) -> Seq<char> {
    let t = trim(ocr_text);
    if t.len() == 0 {
        Seq::empty()
    } else {
        "\n\n> 📷 **[图片内提取文字]**\n>\n"@ + quoted_lines(lines_spec(t)) + "\n\n"@
    }
}

fn slice_from(v: &Vec<char>, from: usize) -> (r: Vec<char>)
    requires
        from <= v.len(),
    ensures
        r@ == v@.skip(from as int),
{
    let mut out: Vec<char> = Vec::new();
    let mut i: usize = from;
    while i < v.len()
        invariant
            from <= i <= v.len(),
            out@ == v@.subrange(from as int, i as int),
        decreases v.len() - i,
    {
        out.push(v[i]);
        assert(out@ =~= v@.subrange(from as int, i + 1));
        i = i + 1;
    }
    assert(v@.subrange(from as int, v.len() as int) =~= v@.skip(from as int));
    out
}

fn take_chars(v: &Vec<char>, n: usize) -> (r: Vec<char>)
    requires
        n <= v.len(),
    ensures
        r@ == v@.take(n as int),
{
    let mut out: Vec<char> = Vec::new();
    let mut i: usize = 0;
    while i < n
        invariant
            n <= v.len(),
            i <= n,
            out@ == v@.take(i as int),
        decreases n - i,
    {
        out.push(v[i]);
        assert(out@ =~= v@.take(i + 1));
        i = i + 1;
    }
    out
}

/// The character views of a list of character vectors.
pub open spec fn line_views(ls: Seq<Vec<char>>) -> Seq<Seq<char>> {
    ls.map_values(|l: Vec<char>| l@)
}

/// The lines of a text (see `lines_spec`).
pub fn split_lines(t: &Vec<char>) -> (r: Vec<Vec<char>>)
    ensures
        line_views(r@) == lines_spec(t@),
{
    let mut ls: Vec<Vec<char>> = Vec::new();
    let mut pos: usize = 0;
    assert(t@.skip(0) =~= t@);
    while pos < t.len()
        invariant
            pos <= t@.len(),
            lines_spec(t@) == line_views(ls@) + lines_spec(t@.skip(pos as int)),
        decreases t.len() - pos,
    {
        let rest = slice_from(t, pos);
        let ghost old_ls = line_views(ls@);
        match find_exec(&rest, "\n") {
            Some(i) => {
                proof {
                    lemma_find_from_bound(rest@, "\n"@, 0);
                    assert("\n"@ =~= seq!['\n']) by {
                        reveal_strlit("\n");
                    }
                }
                let seg = take_chars(&rest, i);
                let line = if i > 0 && seg[i - 1] == '\r' {
                    take_chars(&seg, i - 1)
                } else {
                    seg
                };
                proof {
                    if i > 0 && seg@[i - 1] == '\r' {
                        assert(seg@.drop_last() =~= seg@.take(i - 1));
                    }
                }
                ls.push(line);
                proof {
                    assert(line_views(ls@) =~= old_ls.push(line@));
                }
                if i + 1 >= rest.len() {
                    proof {
                        assert(t@.skip((pos + rest.len()) as int) =~= Seq::<char>::empty());
                        assert(lines_spec(Seq::<char>::empty()) =~= Seq::<Seq<char>>::empty());
                        assert(old_ls + seq![line@] =~= line_views(ls@) + lines_spec(Seq::<char>::empty()));
                    }
                    pos = t.len();
                } else {
                    proof {
                        assert(rest@.skip(i + 1) =~= t@.skip(pos + i + 1));
                        assert(old_ls + (seq![line@] + lines_spec(rest@.skip(i + 1))) =~= line_views(ls@)
                            + lines_spec(rest@.skip(i + 1)));
                    }
                    pos = pos + i + 1;
                }
            },
            None => {
                proof {
                    assert("\n"@ =~= seq!['\n']) by {
                        reveal_strlit("\n");
                    }
                }
                ls.push(rest);
                proof {
                    assert(line_views(ls@) =~= old_ls.push(rest@));
                    assert(t@.skip(t.len() as int) =~= Seq::<char>::empty());
                    assert(lines_spec(Seq::<char>::empty()) =~= Seq::<Seq<char>>::empty());
                    assert(old_ls + seq![rest@] =~= line_views(ls@) + lines_spec(Seq::<char>::empty()));
                }
                pos = t.len();
            },
        }
    }
    proof {
        assert(t@.skip(pos as int) =~= Seq::<char>::empty());
        assert(lines_spec(Seq::<char>::empty()) =~= Seq::<Seq<char>>::empty());
        assert(line_views(ls@) + Seq::<Seq<char>>::empty() =~= line_views(ls@));
    }
    ls
}

/// The document extractor.
pub struct OmniExtractor;

impl OmniExtractor {
    /// An OCR text as a Markdown block quote (see `ocr_block_spec`).
    pub fn format_markitdown_ocr_block(ocr_text: &str) -> (r: String)
        ensures
            r@ == ocr_block_spec(ocr_text@),
    {
        let t = trim_chars(&chars_of(ocr_text));
        if t.len() == 0 {
            return String::new();
        }
        let ls = split_lines(&t);
        let ghost lv = line_views(ls@);
        let mut body: Vec<char> = Vec::new();
        let mut k: usize = 0;
        while k < ls.len()
            invariant
                lv == line_views(ls@),
                k <= ls@.len(),
                body@ == quoted_lines(lv.take(k as int)),
            decreases ls.len() - k,
        {
            let ghost old_body = body@;
            proof {
                assert(lv.take(k + 1).drop_last() =~= lv.take(k as int));
                assert(lv.take(k + 1).last() == ls@[k as int]@);
            }
            if k > 0 {
                extend_str(&mut body, "\n>\n");
            }
            extend_str(&mut body, "> ");
            extend_chars(&mut body, &ls[k]);
            proof {
                if k == 0 {
                    assert(lv.take(1) =~= seq![ls@[0]@]);
                    assert(body@ =~= "> "@ + ls@[0]@);
                } else {
                    assert(body@ =~= old_body + "\n>\n"@ + "> "@ + ls@[k as int]@);
                }
            }
            k = k + 1;
        }
        assert(lv.take(ls.len() as int) =~= lv);
        let mut out = chars_of("\n\n> 📷 **[图片内提取文字]**\n>\n");
        extend_chars(&mut out, &body);
        extend_str(&mut out, "\n\n");
        string_of(&out)
    }
}

/// `s` with every occurrence of `p` (non-empty), left to right and without
/// overlap, replaced by `r` (`str::replace`).
pub open spec fn replace_all(s: Seq<char>, p: Seq<char>, r: Seq<char>) -> Seq<char>
    decreases s.len(),
{
    if p.len() == 0 {
        s
    } else {
        match find_from(s, p, 0) {
            Some(i) => {
                proof {
                    lemma_find_from_bound(s, p, 0);
                }
                s.take(i) + r + replace_all(s.skip(i + p.len()), p, r)
            },
            None => s,
        }
    }
}

fn replace_all_exec(s: &Vec<char>, p: &Vec<char>, r: &Vec<char>) -> (out: Vec<char>)
    requires
        p@.len() > 0,
    ensures
        out@ == replace_all(s@, p@, r@),
{
    let ps = string_of(p);
    let mut out: Vec<char> = Vec::new();
    let mut pos: usize = 0;
    assert(s@.skip(0) =~= s@);
    while pos < s.len()
        invariant
            p@.len() > 0,
            ps@ == p@,
            pos <= s@.len(),
            replace_all(s@, p@, r@) == out@ + replace_all(s@.skip(pos as int), p@, r@),
        decreases s.len() - pos,
    {
        let rest = slice_from(s, pos);
        let ghost old_out = out@;
        match find_exec(&rest, ps.as_str()) {
            Some(i) => {
                proof {
                    lemma_find_from_bound(rest@, p@, 0);
                }
                let head = take_chars(&rest, i);
                extend_chars(&mut out, &head);
                extend_chars(&mut out, r);
                proof {
                    assert(rest@.skip(i + p@.len()) =~= s@.skip(pos + i + p@.len()));
                    assert(out@ =~= old_out + head@ + r@);
                    assert(old_out + (head@ + r@ + replace_all(rest@.skip(i + p@.len()), p@, r@)) =~= out@
                        + replace_all(rest@.skip(i + p@.len()), p@, r@));
                }
                pos = pos + i + p.len();
            },
            None => {
                extend_chars(&mut out, &rest);
                proof {
                    assert(s@.skip(s.len() as int) =~= Seq::<char>::empty());
                    assert(replace_all(Seq::<char>::empty(), p@, r@) =~= Seq::<char>::empty());
                    assert(out@ =~= old_out + rest@);
                    assert(out@ + Seq::<char>::empty() =~= out@);
                }
                pos = s.len();
            },
        }
    }
    proof {
        assert(s@.skip(pos as int) =~= Seq::<char>::empty());
        assert(replace_all(Seq::<char>::empty(), p@, r@) =~= Seq::<char>::empty());
        assert(out@ + Seq::<char>::empty() =~= out@);
    }
    out
}

/// The markdown after substituting each image's OCR text, pair by pair:
/// every placeholder `![name]` of an image whose text is not blank becomes
/// the OCR block of its text.
pub open spec fn substitute_ocr_spec(markdown: Seq<char>, pairs: Seq<(Seq<char>, Seq<char>)>) -> Seq<char>
    decreases pairs.len(),
{
    if pairs.len() == 0 {
        markdown
    } else {
        let prev = substitute_ocr_spec(markdown, pairs.drop_last());
        let (name, text) = pairs.last();
        if trim(text).len() == 0 {
            prev
        } else {
            replace_all(prev, "!["@ + name + "]"@, ocr_block_spec(text))
        }
    }
}

proof fn lemma_find_from_occurs(v: Seq<char>, p: Seq<char>, i: int)
    ensures
        find_from(v, p, i) matches Some(x) ==> occurs_at(v, p, x),
    decreases v.len() + 1 - i,
{
    if !(i < 0 || i + p.len() > v.len()) && !occurs_at(v, p, i) {
        lemma_find_from_occurs(v, p, i + 1);
    }
}

proof fn lemma_find_from_none(v: Seq<char>, p: Seq<char>, i: int)
    requires
        i >= 0,
        find_from(v, p, i) is None,
    ensures
        forall|j: int| j >= i ==> !#[trigger] occurs_at(v, p, j),
    decreases v.len() + 1 - i,
{
    if i + p.len() <= v.len() {
        lemma_find_from_none(v, p, i + 1);
    }
}

proof fn lemma_find_from_first(v: Seq<char>, p: Seq<char>, i: int)
    requires
        i >= 0,
    ensures
        find_from(v, p, i) matches Some(x) ==> forall|j: int| i <= j < x ==> !#[trigger] occurs_at(v, p, j),
    decreases v.len() + 1 - i,
{
    if !(i + p.len() > v.len()) && !occurs_at(v, p, i) {
        lemma_find_from_first(v, p, i + 1);
    }
}

/// Every occurrence is replaced: after `replace_all` no occurrence of the
/// pattern is left, as long as none can form across a replacement (the
/// pattern's first character is not in the replacement, and the
/// replacement's first character is not in the pattern).
pub proof fn law_replace_all_leaves_no_pattern(s: Seq<char>, p: Seq<char>, r: Seq<char>)
    requires
        p.len() > 0,
        r.len() > 0,
        !r.contains(p[0]),
        !p.contains(r[0]),
    ensures
        !contains_seq(replace_all(s, p, r), p),
    decreases s.len(),
{
    lemma_find_from_bound(s, p, 0);
    lemma_find_from_first(s, p, 0);
    lemma_find_from_occurs(s, p, 0);
    match find_from(s, p, 0) {
        None => {
            lemma_find_from_none(s, p, 0);
            assert(replace_all(s, p, r) == s);
        },
        Some(i) => {
            let x = s.take(i);
            let tail = s.skip(i + p.len());
            law_replace_all_leaves_no_pattern(tail, p, r);
            let rest = replace_all(tail, p, r);
            let out = x + r + rest;
            assert(replace_all(s, p, r) == out);
            let a = x.len() as int;
            let b = a + r.len();
            assert forall|j: int| !#[trigger] occurs_at(out, p, j) by {
                if occurs_at(out, p, j) {
                    let w = out.subrange(j, j + p.len());
                    assert(w == p);
                    if j + p.len() <= a {
                        assert(w =~= s.subrange(j, j + p.len()));
                        assert(occurs_at(s, p, j));
                    } else if j < a {
                        assert(w[a - j] == out[a]);
                        assert(out[a] == r[0]);
                        assert(p[a - j] == r[0]);
                    } else if j < b {
                        assert(w[0] == out[j]);
                        assert(out[j] == r[j - a]);
                        assert(r[j - a] == p[0]);
                    } else {
                        assert(w =~= rest.subrange(j - b, j - b + p.len()));
                        assert(occurs_at(rest, p, j - b));
                    }
                }
            }
        },
    }
}

/// Where the pattern occurs, the replacement appears in the result.
pub proof fn law_replace_all_inserts_replacement(s: Seq<char>, p: Seq<char>, r: Seq<char>)
    requires
        p.len() > 0,
        contains_seq(s, p),
    ensures
        contains_seq(replace_all(s, p, r), r),
{
    lemma_find_from_bound(s, p, 0);
    lemma_find_from_first(s, p, 0);
    let j = choose|j: int| occurs_at(s, p, j);
    if find_from(s, p, 0) is None {
        lemma_find_from_none(s, p, 0);
        assert(occurs_at(s, p, j));
        assert(false);
    }
    let i = find_from(s, p, 0)->Some_0;
    let out = s.take(i) + r + replace_all(s.skip(i + p.len()), p, r);
    assert(replace_all(s, p, r) == out);
    assert(out.subrange(i, i + r.len()) =~= r);
    assert(occurs_at(out, r, i));
}

/// A blank OCR text leaves the markdown as it is; a non-blank one puts its
/// OCR block wherever the image's placeholder stood.
pub proof fn law_ocr_text_fills_placeholders(markdown: Seq<char>, name: Seq<char>, text: Seq<char>)
    ensures
        trim(text).len() == 0 ==> substitute_ocr_spec(markdown, seq![(name, text)]) == markdown,
        trim(text).len() > 0 && contains_seq(markdown, "!["@ + name + "]"@) ==> contains_seq(
            substitute_ocr_spec(markdown, seq![(name, text)]),
            ocr_block_spec(text),
        ),
{
    reveal_strlit("![");
    let pairs = seq![(name, text)];
    assert(pairs.drop_last() =~= Seq::<(Seq<char>, Seq<char>)>::empty());
    assert(pairs.last() == (name, text));
    assert(substitute_ocr_spec(markdown, pairs.drop_last()) == markdown);
    let p = "!["@ + name + "]"@;
    assert(p.len() > 0);
    if trim(text).len() > 0 && contains_seq(markdown, p) {
        law_replace_all_inserts_replacement(markdown, p, ocr_block_spec(text));
    }
}

/// With a non-blank OCR text for an image, every placeholder `![name]` of
/// that image is replaced: none is left in the result (when the name holds
/// no line break and the OCR block no `!`, so that none can form anew).
pub proof fn law_ocr_replaces_every_placeholder(markdown: Seq<char>, name: Seq<char>, text: Seq<char>)
    requires
        trim(text).len() > 0,
        !name.contains('\n'),
        !ocr_block_spec(text).contains('!'),
    ensures
        !contains_seq(substitute_ocr_spec(markdown, seq![(name, text)]), "!["@ + name + "]"@),
{
    reveal_strlit("![");
    reveal_strlit("]");
    reveal_strlit("\n\n> 📷 **[图片内提取文字]**\n>\n");
    let pairs = seq![(name, text)];
    assert(pairs.drop_last() =~= Seq::<(Seq<char>, Seq<char>)>::empty());
    assert(pairs.last() == (name, text));
    let p = "!["@ + name + "]"@;
    let blk = ocr_block_spec(text);
    assert(p[0] == '!');
    assert(blk[0] == '\n');
    assert(!p.contains('\n')) by {
        if p.contains('\n') {
            let k = choose|k: int| 0 <= k < p.len() && p[k] == '\n';
            if 2 <= k < p.len() - 1 {
                assert(name[k - 2] == p[k]);
            }
        }
    }
    law_replace_all_leaves_no_pattern(markdown, p, blk);
    assert(substitute_ocr_spec(markdown, pairs.drop_last()) == markdown);
    assert(substitute_ocr_spec(markdown, pairs) == replace_all(markdown, p, blk));
}

/// OCR text goes only where a placeholder stands: markdown without any
/// `![` comes back unchanged, whatever OCR texts are given.
pub proof fn law_ocr_only_at_placeholders(markdown: Seq<char>, pairs: Seq<(Seq<char>, Seq<char>)>)
    requires
        !contains_seq(markdown, "!["@),
    ensures
        substitute_ocr_spec(markdown, pairs) == markdown,
    decreases pairs.len(),
{
    if pairs.len() > 0 {
        law_ocr_only_at_placeholders(markdown, pairs.drop_last());
        let name = pairs.last().0;
        let pat = "!["@ + name + "]"@;
        reveal_strlit("![");
        reveal_strlit("]");
        lemma_find_from_occurs(markdown, pat, 0);
        if let Some(x) = find_from(markdown, pat, 0) {
            assert(occurs_at(markdown, pat, x));
            assert(markdown.subrange(x, x + 2) =~= pat.subrange(0, 2));
            assert(pat.subrange(0, 2) =~= "!["@);
            assert(occurs_at(markdown, "!["@, x));
        }
    }
}

impl OmniExtractor {
    /// Replaces the placeholders of embedded images by their OCR text (see
    /// `substitute_ocr_spec`); `image_ocr` pairs an image name with its text.
    pub fn replace_embedded_image_ocr(markdown: &str, image_ocr: &Vec<(String, String)>) -> (r: String)
        ensures
            r@ == substitute_ocr_spec(markdown@, image_ocr.deep_view()),
    {
        let ghost pv = image_ocr.deep_view();
        let mut cur = chars_of(markdown);
        let mut i: usize = 0;
        while i < image_ocr.len()
            invariant
                pv == image_ocr.deep_view(),
                i <= image_ocr@.len(),
                cur@ == substitute_ocr_spec(markdown@, pv.take(i as int)),
            decreases image_ocr.len() - i,
        {
            proof {
                assert(pv.take(i + 1).drop_last() =~= pv.take(i as int));
                assert(pv.take(i + 1).last() == pv[i as int]);
            }
            let text = &image_ocr[i].1;
            let t = trim_chars(&chars_of(text.as_str()));
            if t.len() > 0 {
                let mut pat = chars_of("![");
                extend_str(&mut pat, image_ocr[i].0.as_str());
                extend_str(&mut pat, "]");
                proof {
                    reveal_strlit("![");
                    assert(pat@.len() > 0);
                }
                let block = chars_of(OmniExtractor::format_markitdown_ocr_block(text.as_str()).as_str());
                cur = replace_all_exec(&cur, &pat, &block);
            }
            i = i + 1;
        }
        assert(pv.take(image_ocr.len() as int) =~= pv);
        string_of(&cur)
    }
}

/// The largest character boundary of `bytes` that is at most `n`.
pub open spec fn char_cut(bytes: Seq<u8>, n: int) -> int
    decreases n,
{
    if n <= 0 {
        0
    } else if is_char_boundary(bytes, n) {
        n
    } else {
        char_cut(bytes, n - 1)
    }
}

/// The note appended to text cut at a budget of `max_bytes` bytes.
pub open spec fn truncation_note(max_bytes: nat) -> Seq<char> {
    "\n\n[Content truncated at "@ + decimal(max_bytes / 1024) + " KB limit]"@
}

/// Text kept within `max_bytes` UTF-8 bytes: unchanged when it fits, else
/// cut at the last character boundary within the budget and followed by
/// the truncation note.
pub open spec fn truncate_spec(s: Seq<char>, max_bytes: nat) -> Seq<char> {
    let b = encode_utf8(s);
    if b.len() <= max_bytes {
        s
    } else {
        decode_utf8(b.subrange(0, char_cut(b, max_bytes as int))) + truncation_note(max_bytes)
    }
}

/// Keeps text within a byte budget (see `truncate_spec`).
pub fn truncate_string(s: &str, max_bytes: usize) -> (r: String)
    ensures
        r@ == truncate_spec(s@, max_bytes as nat),
{
    let bytes = s.as_bytes();
    if bytes.len() <= max_bytes {
        return s.to_owned();
    }
    let ghost b = s.spec_bytes();
    proof {
        vstd::utf8::encode_utf8_valid_utf8(s@);
    }
    let mut valid_end = max_bytes;
    while valid_end > 0 && !s.is_char_boundary(valid_end)
        invariant
            b == s.spec_bytes(),
            b == encode_utf8(s@),
            vstd::utf8::valid_utf8(b),
            valid_end <= max_bytes,
            max_bytes < b.len(),
            char_cut(b, valid_end as int) == char_cut(b, max_bytes as int),
        decreases valid_end,
    {
        valid_end = valid_end - 1;
    }
    assert(is_char_boundary(b, valid_end as int));
    assert(char_cut(b, valid_end as int) == valid_end);
    let (head, _tail) = s.split_at(valid_end);
    proof {
        vstd::utf8::encode_utf8_decode_utf8(head@);
        assert(encode_utf8(head@) =~= b.subrange(0, valid_end as int));
    }
    let mut out = chars_of(head);
    extend_str(&mut out, "\n\n[Content truncated at ");
    let digits = decimal_chars((max_bytes / 1024) as u64);
    extend_chars(&mut out, &digits);
    extend_str(&mut out, " KB limit]");
    string_of(&out)
}

/// A PDF date string without its `D:` marker.
pub open spec fn pdf_date_body(raw: Seq<char>) -> Seq<char> {
    if raw.len() >= 2 && raw[0] == 'D' && raw[1] == ':' {
        raw.skip(2)
    } else {
        raw
    }
}

/// The text of the UTF-8 bytes `[i, j)` of `s`.
pub open spec fn byte_piece(s: Seq<char>, i: int, j: int) -> Seq<char> {
    decode_utf8(encode_utf8(s).subrange(i, j))
}

/// Whether the date fields of a PDF date body fall on character
/// boundaries: the body is cut at the UTF-8 byte offsets 4, 6, 8, 10, 12
/// and 14 once it is 14 bytes long.
pub open spec fn pdf_date_cuttable(raw: Seq<char>) -> bool {
    let b = encode_utf8(pdf_date_body(raw));
    b.len() >= 14 ==> {
        &&& is_char_boundary(b, 4)
        &&& is_char_boundary(b, 6)
        &&& is_char_boundary(b, 8)
        &&& is_char_boundary(b, 10)
        &&& is_char_boundary(b, 12)
        &&& is_char_boundary(b, 14)
    }
}

/// A PDF date (`D:YYYYMMDDHHmmSS` and an optional zone such as `+08'00'`)
/// as `YYYY:MM:DD HH:mm:SS` followed by the zone with quotes turned into
/// colons and trailing colons dropped; a body shorter than 14 bytes is
/// returned as it is.
pub open spec fn pdf_date_spec(raw: Seq<char>) -> Seq<char> {
    let s = pdf_date_body(raw);
    let n = encode_utf8(s).len() as int;
    if n >= 14 {
        let tz = crate::taxonomy::trim_end_char(
            crate::text::replace_char(byte_piece(s, 14, n), '\'', ':'),
            ':',
        );
        byte_piece(s, 0, 4) + ":"@ + byte_piece(s, 4, 6) + ":"@ + byte_piece(s, 6, 8) + " "@
            + byte_piece(s, 8, 10) + ":"@ + byte_piece(s, 10, 12) + ":"@ + byte_piece(s, 12, 14)
            + tz
    } else {
        s
    }
}

proof fn lemma_boundary_in_prefix(b: Seq<u8>, i: int, j: int)
    requires
        vstd::utf8::valid_utf8(b),
        0 <= i <= j <= b.len(),
        is_char_boundary(b, i),
        is_char_boundary(b, j),
    ensures
        vstd::utf8::valid_utf8(b.subrange(0, j)),
        is_char_boundary(b.subrange(0, j), i),
{
    vstd::utf8::valid_utf8_split(b, j);
    let p = b.subrange(0, j);
    if i == 0 {
        vstd::utf8::is_char_boundary_start_end_of_seq(p);
    } else if i == j {
        vstd::utf8::is_char_boundary_start_end_of_seq(p);
    } else {
        vstd::utf8::is_char_boundary_iff_not_is_continuation_byte(b, i);
        vstd::utf8::is_char_boundary_iff_not_is_continuation_byte(p, i);
    }
}

/// The characters of the UTF-8 bytes `[i, j)` of `s`, both offsets being
/// character boundaries.
fn byte_piece_exec(s: &str, i: usize, j: usize) -> (r: Vec<char>)
    requires
        i <= j <= encode_utf8(s@).len(),
        is_char_boundary(encode_utf8(s@), i as int),
        is_char_boundary(encode_utf8(s@), j as int),
    ensures
        r@ == byte_piece(s@, i as int, j as int),
{
    let ghost b = encode_utf8(s@);
    proof {
        vstd::utf8::encode_utf8_valid_utf8(s@);
        lemma_boundary_in_prefix(b, i as int, j as int);
    }
    let (head, _tail) = s.split_at(j);
    assert(head.spec_bytes() == b.subrange(0, j as int));
    let (_lead, mid) = head.split_at(i);
    proof {
        assert(mid.spec_bytes() =~= b.subrange(i as int, j as int));
        vstd::utf8::encode_utf8_decode_utf8(mid@);
    }
    chars_of(mid)
}

/// Formats a PDF date string (see `pdf_date_spec`).
pub fn format_pdf_date(raw: &str) -> (r: String)
    requires
        pdf_date_cuttable(raw@),
    ensures
        r@ == pdf_date_spec(raw@),
{
    let v = chars_of(raw);
    let body = if v.len() >= 2 && v[0] == 'D' && v[1] == ':' {
        crate::text::slice_chars(&v, 2, v.len())
    } else {
        crate::text::slice_chars(&v, 0, v.len())
    };
    proof {
        if raw@.len() >= 2 {
            assert(raw@.skip(2) =~= raw@.subrange(2, raw@.len() as int));
        }
        assert(raw@ =~= raw@.subrange(0, raw@.len() as int));
    }
    let s = string_of(&body);
    assert(s@ == pdf_date_body(raw@));
    let st = s.as_str();
    let n = st.as_bytes().len();
    if n < 14 {
        return s;
    }
    proof {
        vstd::utf8::encode_utf8_valid_utf8(s@);
        vstd::utf8::is_char_boundary_start_end_of_seq(encode_utf8(s@));
    }
    let mut out = byte_piece_exec(st, 0, 4);
    extend_str(&mut out, ":");
    extend_chars(&mut out, &byte_piece_exec(st, 4, 6));
    extend_str(&mut out, ":");
    extend_chars(&mut out, &byte_piece_exec(st, 6, 8));
    extend_str(&mut out, " ");
    extend_chars(&mut out, &byte_piece_exec(st, 8, 10));
    extend_str(&mut out, ":");
    extend_chars(&mut out, &byte_piece_exec(st, 10, 12));
    extend_str(&mut out, ":");
    extend_chars(&mut out, &byte_piece_exec(st, 12, 14));
    let rest = byte_piece_exec(st, 14, n);
    let quoted = crate::text::replace_char_exec(&rest, '\'', ':');
    let tz = crate::taxonomy::trim_end_char_exec(&quoted, ':');
    extend_chars(&mut out, &tz);
    string_of(&out)
}

/// The metadata key a PDF information entry is filed under: creation and
/// modification dates get the metadata tool's names.
pub open spec fn pdf_info_key_spec(key: Seq<char>) -> Seq<char> {
    if key == "CreationDate"@ {
        "CreateDate"@
    } else if key == "ModDate"@ {
        "ModifyDate"@
    } else {
        key
    }
}

/// Whether a PDF information value is a date to format: a creation or
/// modification date whose trimmed text starts with `D:`.
pub open spec fn pdf_info_is_date(key: Seq<char>, value: Seq<char>) -> bool {
    (key == "CreationDate"@ || key == "ModDate"@) && "D:"@.is_prefix_of(trim(value))
}

/// A PDF information entry as metadata: none when the value is blank;
/// else the renamed key and the trimmed value, dates formatted.
pub open spec fn pdf_info_entry_spec(key: Seq<char>, value: Seq<char>) -> Option<(Seq<char>, Seq<char>)> {
    let t = trim(value);
    if t.len() == 0 {
        None
    } else if pdf_info_is_date(key, value) {
        Some((pdf_info_key_spec(key), pdf_date_spec(t)))
    } else {
        Some((pdf_info_key_spec(key), t))
    }
}

/// A PDF information entry as metadata (see `pdf_info_entry_spec`).
pub fn pdf_info_entry(key: &str, value: &str) -> (r: Option<(String, String)>)
    requires
        pdf_info_is_date(key@, value@) ==> pdf_date_cuttable(trim(value@)),
    ensures
        match r {
            Some(e) => pdf_info_entry_spec(key@, value@) == Some((e.0@, e.1@)),
            None => pdf_info_entry_spec(key@, value@) is None,
        },
{
    let t = crate::text::trim_str(value);
    if t.as_str().unicode_len() == 0 {
        return None;
    }
    let k = chars_of(key);
    let is_creation = crate::text::chars_eq(&k, &chars_of("CreationDate"));
    let is_mod = crate::text::chars_eq(&k, &chars_of("ModDate"));
    let std_key = if is_creation {
        "CreateDate".to_owned()
    } else if is_mod {
        "ModifyDate".to_owned()
    } else {
        key.to_owned()
    };
    let tc = chars_of(t.as_str());
    if (is_creation || is_mod) && crate::text::starts_with_str(&tc, "D:") {
        Some((std_key, format_pdf_date(t.as_str())))
    } else {
        Some((std_key, t))
    }
}

proof fn lemma_char_cut(b: Seq<u8>, n: int)
    requires
        vstd::utf8::valid_utf8(b),
        0 <= n <= b.len(),
    ensures
        0 <= char_cut(b, n) <= n,
        is_char_boundary(b, char_cut(b, n)),
    decreases n,
{
    if n <= 0 {
        vstd::utf8::is_char_boundary_start_end_of_seq(b);
    } else if !is_char_boundary(b, n) {
        lemma_char_cut(b, n - 1);
    }
}

/// Truncation keeps the beginning of the text: the result is the text
/// itself when it fits, else a prefix of it within the byte budget
/// followed by the truncation note.
pub proof fn law_truncation_keeps_prefix(s: Seq<char>, max_bytes: nat)
    ensures
        encode_utf8(s).len() <= max_bytes ==> truncate_spec(s, max_bytes) == s,
        encode_utf8(s).len() > max_bytes ==> exists|k: int|
            0 <= k <= s.len() && encode_utf8(s.take(k)).len() <= max_bytes && truncate_spec(
                s,
                max_bytes,
            ) == s.take(k) + truncation_note(max_bytes),
{
    let b = encode_utf8(s);
    if b.len() > max_bytes {
        vstd::utf8::encode_utf8_valid_utf8(s);
        vstd::utf8::encode_utf8_decode_utf8(s);
        let cut = char_cut(b, max_bytes as int);
        lemma_char_cut(b, max_bytes as int);
        vstd::utf8::decode_utf8_split(b, cut);
        vstd::utf8::valid_utf8_split(b, cut);
        let head = decode_utf8(b.subrange(0, cut));
        let k = head.len() as int;
        assert(s =~= head + decode_utf8(b.subrange(cut, b.len() as int)));
        assert(s.take(k) =~= head);
        vstd::utf8::decode_utf8_encode_utf8(b.subrange(0, cut));
        assert(encode_utf8(s.take(k)) == b.subrange(0, cut));
        assert(truncate_spec(s, max_bytes) == s.take(k) + truncation_note(max_bytes));
    }
}

} // verus!
