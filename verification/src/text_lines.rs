//! Support for text recognition: the text-line regions of a grayscale
//! image, found from the density of horizontal edges in each row (tall
//! regions are cut into slices, an image without any region into fixed
//! strips), and the character dictionary of the recognizer.
use vstd::prelude::*;
use crate::extract_text::{lines_spec, line_views, split_lines};

verus! {

/// A grayscale image: `pixels` holds `height` rows of `width` luminance
/// values each.
pub struct GrayImage {
    pub width: u32,
    pub height: u32,
    pub pixels: Vec<u8>,
}

impl GrayImage {
    /// The pixel buffer has exactly one value per pixel and the height
    /// leaves room for the strip arithmetic.
    pub open spec fn wf(&self) -> bool {
        &&& self.pixels@.len() == self.width as int * self.height as int
        &&& self.height as int + 44 <= u32::MAX
    }

    /// The luminance at column `x` of row `y`.
    pub open spec fn at(&self, x: int, y: int) -> int {
        self.pixels@[y * self.width + x] as int
    }
}

/// The number of columns `x` in `1..n` of row `y` where the luminance
/// changes by more than 18 from the column before.
pub open spec fn edges_upto(img: GrayImage, y: int, n: int) -> nat
    decreases n,
{
    if n <= 1 {
        0
    } else {
        let d = img.at(n - 1, y) - img.at(n - 2, y);
        edges_upto(img, y, n - 1) + if d > 18 || d < -18 {
            1nat
        } else {
            0nat
        }
    }
}

/// The edge density of row `y`.
pub open spec fn row_density(img: GrayImage, y: int) -> nat {
    edges_upto(img, y, img.width as int)
}

/// The density a row must exceed to count as text: a 45th of the width,
/// at least 2.
pub open spec fn min_density(w: int) -> int {
    if w / 45 >= 2 {
        w / 45
    } else {
        2
    }
}

/// `a - 2`, not below zero.
pub open spec fn less_two(a: int) -> int {
    if a >= 2 {
        a - 2
    } else {
        0
    }
}

/// The smaller of two numbers.
pub open spec fn min_int(a: int, b: int) -> int {
    if a <= b {
        a
    } else {
        b
    }
}

/// The scan after rows `0..y`: inside a run of text rows or not, where
/// the run started, and the regions closed so far (runs of at least six
/// rows, widened by two rows each way within the image).
pub open spec fn scan_rows(img: GrayImage, y: int) -> (bool, int, Seq<(int, int)>)
    decreases y,
{
    if y <= 0 {
        (false, 0, Seq::empty())
    } else {
        let (in_line, start, regions) = scan_rows(img, y - 1);
        let row = y - 1;
        if row_density(img, row) > min_density(img.width as int) {
            if !in_line {
                (true, row, regions)
            } else {
                (in_line, start, regions)
            }
        } else if in_line {
            if row - start >= 6 {
                (false, start, regions.push((less_two(start), min_int(row + 2, img.height as int))))
            } else {
                (false, start, regions)
            }
        } else {
            (in_line, start, regions)
        }
    }
}

/// The regions of text rows, a run still open at the bottom included.
pub open spec fn line_regions(img: GrayImage) -> Seq<(int, int)> {
    let (in_line, start, regions) = scan_rows(img, img.height as int);
    if in_line && img.height - start >= 6 {
        regions.push((less_two(start), img.height as int))
    } else {
        regions
    }
}

/// Slices of 32 rows from `c` to `end`, the last one shorter; slices under
/// 8 rows are dropped.
pub open spec fn slices(c: int, end: int) -> Seq<(int, int)>
    decreases end - c,
{
    if c >= end {
        Seq::empty()
    } else {
        let next = min_int(c + 32, end);
        let rest = slices(next, end);
        if next - c >= 8 {
            seq![(c, next)] + rest
        } else {
            rest
        }
    }
}

/// Each region, cut into slices when taller than 65 rows.
pub open spec fn split_regions(regions: Seq<(int, int)>) -> Seq<(int, int)>
    decreases regions.len(),
{
    if regions.len() == 0 {
        Seq::empty()
    } else {
        let (y0, y1) = regions.last();
        split_regions(regions.drop_last()) + if y1 - y0 > 65 {
            slices(y0, y1)
        } else {
            seq![(y0, y1)]
        }
    }
}

/// Strips of 44 rows from `c` to `end`, the last one shorter.
pub open spec fn strips(c: int, end: int) -> Seq<(int, int)>
    decreases end - c,
{
    if c >= end {
        Seq::empty()
    } else {
        let next = min_int(c + 44, end);
        seq![(c, next)] + strips(next, end)
    }
}

/// The text-line regions `(top, bottom)` of an image: none for an empty
/// image; else the split regions, or fixed strips when there are none.
pub open spec fn text_line_regions_spec(img: GrayImage) -> Seq<(int, int)> {
    if img.width == 0 || img.height == 0 {
        Seq::empty()
    } else {
        let r = split_regions(line_regions(img));
        if r.len() == 0 {
            strips(0, img.height as int)
        } else {
            r
        }
    }
}

/// The view of row pairs.
pub open spec fn pair_views(v: Seq<(u32, u32)>) -> Seq<(int, int)> {
    v.map_values(|p: (u32, u32)| (p.0 as int, p.1 as int))
}

fn row_edges(img: &GrayImage, y: u32) -> (r: u32)
    requires
        img.wf(),
        y < img.height,
    ensures
        r == row_density(*img, y as int),
{
    let w = img.width;
    let mut count: u32 = 0;
    if w <= 1 {
        return 0;
    }
    proof {
        assert((y as int) * (w as int) + (w as int) <= (img.height as int) * (w as int)) by (nonlinear_arith)
            requires
                (y as int) < (img.height as int),
                (w as int) >= 0,
        ;
        assert((img.height as int) * (w as int) == (w as int) * (img.height as int)) by (nonlinear_arith);
    }
    let n = img.pixels.len();
    assert((y as int) * (w as int) <= n);
    let base: usize = (y as usize) * (w as usize);
    let mut x: u32 = 1;
    while x < w
        invariant
            img.wf(),
            w == img.width,
            1 <= x <= w,
            y < img.height,
            base == (y as int) * (w as int),
            base + w <= img.pixels@.len(),
            img.pixels@.len() <= usize::MAX,
            count == edges_upto(*img, y as int, x as int),
            count < x,
        decreases w - x,
    {
        let a = img.pixels[base + (x as usize) - 1] as i32;
        let b = img.pixels[base + (x as usize)] as i32;
        assert(img.at(x - 1, y as int) == a);
        assert(img.at(x as int, y as int) == b);
        if a - b > 18 || a - b < -18 {
            count = count + 1;
        }
        x = x + 1;
    }
    count
}

fn slices_exec(out: &mut Vec<(u32, u32)>, c0: u32, end: u32)
    requires
        end as int + 32 <= u32::MAX,
    ensures
        pair_views(final(out)@) == pair_views(old(out)@) + slices(c0 as int, end as int),
{
    let mut c = c0;
    proof {
        assert(pair_views(out@) == pair_views(old(out)@) + Seq::<(int, int)>::empty());
    }
    let ghost acc = Seq::<(int, int)>::empty();
    while c < end
        invariant
            end as int + 32 <= u32::MAX,
            c0 <= c || c >= end,
            pair_views(out@) + slices(c as int, end as int) == pair_views(old(out)@) + slices(
                c0 as int,
                end as int,
            ),
        decreases end - c,
    {
        let next = if c + 32 < end {
            c + 32
        } else {
            end
        };
        let ghost before = pair_views(out@);
        if next - c >= 8 {
            out.push((c, next));
            assert(pair_views(out@) =~= before.push((c as int, next as int)));
            assert(seq![(c as int, next as int)] + slices(next as int, end as int) =~= slices(
                c as int,
                end as int,
            ));
            assert(before.push((c as int, next as int)) + slices(next as int, end as int) =~= before
                + (seq![(c as int, next as int)] + slices(next as int, end as int)));
        }
        c = next;
    }
}

/// The text-line regions of a grayscale image (see
/// `text_line_regions_spec`).
pub fn detect_image_line_regions(img: &GrayImage) -> (r: Vec<(u32, u32)>)
    requires
        img.wf(),
    ensures
        pair_views(r@) == text_line_regions_spec(*img),
{
    let w = img.width;
    let h = img.height;
    if w == 0 || h == 0 {
        return Vec::new();
    }
    let min_d: u32 = if w / 45 >= 2 {
        w / 45
    } else {
        2
    };
    let mut regions: Vec<(u32, u32)> = Vec::new();
    let mut in_line = false;
    let mut line_start: u32 = 0;
    let mut y: u32 = 0;
    while y < h
        invariant
            img.wf(),
            w == img.width,
            h == img.height,
            w > 0,
            min_d == min_density(w as int),
            y <= h,
            line_start <= y,
            (in_line, line_start as int, pair_views(regions@)) == scan_rows(*img, y as int),
            forall|k: int|
                0 <= k < regions@.len() ==> (#[trigger] regions@[k]).0 <= regions@[k].1 <= h,
        decreases h - y,
    {
        let d = row_edges(img, y);
        let ghost before = pair_views(regions@);
        if d > min_d {
            if !in_line {
                in_line = true;
                line_start = y;
            }
        } else if in_line {
            in_line = false;
            if y - line_start >= 6 {
                let top = if line_start >= 2 {
                    line_start - 2
                } else {
                    0
                };
                let bottom = if y + 2 < h {
                    y + 2
                } else {
                    h
                };
                regions.push((top, bottom));
                assert(pair_views(regions@) =~= before.push((less_two(line_start as int), min_int(y + 2, h as int))));
            }
        }
        y = y + 1;
    }
    if in_line && h - line_start >= 6 {
        let top = if line_start >= 2 {
            line_start - 2
        } else {
            0
        };
        let ghost before = pair_views(regions@);
        regions.push((top, h));
        assert(pair_views(regions@) =~= before.push((less_two(line_start as int), h as int)));
    }
    let ghost lr = pair_views(regions@);
    assert(lr == line_regions(*img));
    let mut out: Vec<(u32, u32)> = Vec::new();
    let mut i: usize = 0;
    while i < regions.len()
        invariant
            h == img.height,
            h as int + 44 <= u32::MAX,
            lr == pair_views(regions@),
            forall|k: int|
                0 <= k < regions@.len() ==> (#[trigger] regions@[k]).0 <= regions@[k].1 <= h,
            i <= regions.len(),
            pair_views(out@) == split_regions(lr.take(i as int)),
        decreases regions.len() - i,
    {
        let (y0, y1) = regions[i];
        proof {
            assert(lr.take(i + 1).drop_last() =~= lr.take(i as int));
            assert(lr.take(i + 1).last() == (y0 as int, y1 as int));
        }
        let ghost before = pair_views(out@);
        if y1 - y0 > 65 {
            slices_exec(&mut out, y0, y1);
        } else {
            out.push((y0, y1));
            assert(pair_views(out@) =~= before + seq![(y0 as int, y1 as int)]);
        }
        i = i + 1;
    }
    assert(lr.take(regions@.len() as int) =~= lr);
    if out.len() == 0 {
        let mut strips_out: Vec<(u32, u32)> = Vec::new();
        let mut c: u32 = 0;
        while c < h
            invariant
                h as int + 44 <= u32::MAX,
                pair_views(strips_out@) + strips(c as int, h as int) == strips(0, h as int),
            decreases h - c,
        {
            let next = if c + 44 < h {
                c + 44
            } else {
                h
            };
            let ghost before = pair_views(strips_out@);
            strips_out.push((c, next));
            assert(pair_views(strips_out@) =~= before.push((c as int, next as int)));
            assert(before.push((c as int, next as int)) + strips(next as int, h as int) =~= before + (
            seq![(c as int, next as int)] + strips(next as int, h as int)));
            c = next;
        }
        return strips_out;
    }
    out
}

/// `s` without its trailing carriage returns and line feeds.
pub open spec fn trim_end_crlf(s: Seq<char>) -> Seq<char>
    decreases s.len(),
{
    if s.len() > 0 && (s.last() == '\r' || s.last() == '\n') {
        trim_end_crlf(s.drop_last())
    } else {
        s
    }
}

/// The recognizer's dictionary from a keys file: the blank class, one
/// entry per line (without trailing line-end characters), then a space.
pub open spec fn keys_from_text_spec(content: Seq<char>) -> Seq<Seq<char>> {
    seq![Seq::<char>::empty()] + lines_spec(content).map_values(|l: Seq<char>| trim_end_crlf(l))
        + seq![" "@]
}

fn trim_end_crlf_exec(v: &Vec<char>) -> (r: String)
    ensures
        r@ == trim_end_crlf(v@),
{
    let mut n: usize = v.len();
    assert(v@.take(n as int) =~= v@);
    while n > 0 && (v[n - 1] == '\r' || v[n - 1] == '\n')
        invariant
            n <= v.len(),
            trim_end_crlf(v@) == trim_end_crlf(v@.take(n as int)),
        decreases n,
    {
        assert(v@.take(n as int).drop_last() =~= v@.take(n - 1));
        n = n - 1;
    }
    crate::text::string_of(&crate::text::slice_chars(v, 0, n))
}

/// The recognizer's dictionary from the text of a keys file (see
/// `keys_from_text_spec`).
pub fn keys_from_text(content: &str) -> (r: Vec<String>)
    ensures
        r.deep_view() == keys_from_text_spec(content@),
{
    let lines = split_lines(&crate::text::chars_of(content));
    let ghost lv = line_views(lines@);
    let mut keys: Vec<String> = Vec::new();
    keys.push(String::new());
    let mut i: usize = 0;
    while i < lines.len()
        invariant
            lv == line_views(lines@),
            lv == lines_spec(content@),
            i <= lines.len(),
            keys.deep_view() == seq![Seq::<char>::empty()] + lv.take(i as int).map_values(
                |l: Seq<char>| trim_end_crlf(l),
            ),
        decreases lines.len() - i,
    {
        let ghost before = keys.deep_view();
        let k = trim_end_crlf_exec(&lines[i]);
        assert(lv[i as int] == lines@[i as int]@);
        let ghost kv = k@;
        keys.push(k);
        assert(keys.deep_view() =~= before.push(kv));
        assert(lv.take(i + 1).map_values(|l: Seq<char>| trim_end_crlf(l)) =~= lv.take(i as int).map_values(
            |l: Seq<char>| trim_end_crlf(l),
        ).push(trim_end_crlf(lv[i as int])));
        assert(keys.deep_view() =~= seq![Seq::<char>::empty()] + lv.take(i + 1).map_values(
            |l: Seq<char>| trim_end_crlf(l),
        ));
        i = i + 1;
    }
    assert(lv.take(lines.len() as int) =~= lv);
    let ghost before = keys.deep_view();
    keys.push(" ".to_owned());
    assert(keys.deep_view() =~= before.push(" "@));
    keys
}

/// The characters of the built-in dictionary used without a keys file.
pub open spec fn builtin_key_chars() -> Seq<char> {
    "0123456789abcdefghijklmnopqrstuvwxyzABCDEFGHIJKLMNOPQRSTUVWXYZ:;.,_-+=!@#$%^&*()[]{}/<>?~ 文本识别提取数据统计分析能力智能文件夹萤核系统内容表格字符检测置信度段落模型"@
}

/// The built-in dictionary: the blank class, each built-in character,
/// then a space.
pub fn builtin_keys() -> (r: Vec<String>)
    ensures
        r.deep_view() == seq![Seq::<char>::empty()] + builtin_key_chars().map_values(|c: char| seq![c])
            + seq![" "@],
{
    let cs = crate::text::chars_of(
        "0123456789abcdefghijklmnopqrstuvwxyzABCDEFGHIJKLMNOPQRSTUVWXYZ:;.,_-+=!@#$%^&*()[]{}/<>?~ 文本识别提取数据统计分析能力智能文件夹萤核系统内容表格字符检测置信度段落模型",
    );
    let mut keys: Vec<String> = Vec::new();
    keys.push(String::new());
    let mut i: usize = 0;
    while i < cs.len()
        invariant
            cs@ == builtin_key_chars(),
            i <= cs.len(),
            keys.deep_view() == seq![Seq::<char>::empty()] + cs@.take(i as int).map_values(
                |c: char| seq![c],
            ),
        decreases cs.len() - i,
    {
        let mut one: Vec<char> = Vec::new();
        one.push(cs[i]);
        let k = crate::text::string_of(&one);
        assert(k@ =~= seq![cs@[i as int]]);
        let ghost before = keys.deep_view();
        let ghost kv = k@;
        keys.push(k);
        assert(keys.deep_view() =~= before.push(kv));
        assert(cs@.take(i + 1).map_values(|c: char| seq![c]) =~= cs@.take(i as int).map_values(
            |c: char| seq![c],
        ).push(seq![cs@[i as int]]));
        assert(keys.deep_view() =~= seq![Seq::<char>::empty()] + cs@.take(i + 1).map_values(
            |c: char| seq![c],
        ));
        i = i + 1;
    }
    assert(cs@.take(cs.len() as int) =~= cs@);
    let ghost before = keys.deep_view();
    keys.push(" ".to_owned());
    assert(keys.deep_view() =~= before.push(" "@));
    keys
}

/// The model folders tried first, relative to the working folder.
pub open spec fn ocr_model_dirs_spec() -> Seq<Seq<char>> {
    seq![
        "apps/desktop/build/extraResources/models/PP-OCRv6"@,
        "build/extraResources/models/PP-OCRv6"@,
        "../desktop/build/extraResources/models/PP-OCRv6"@,
        "../../desktop/build/extraResources/models/PP-OCRv6"@,
        "../../../desktop/build/extraResources/models/PP-OCRv6"@,
        "../../../apps/desktop/build/extraResources/models/PP-OCRv6"@,
        "models/PP-OCRv6"@,
    ]
}

/// The model folders tried first (see `ocr_model_dirs_spec`).
pub fn ocr_model_dirs() -> (r: Vec<String>)
    ensures
        r.deep_view() == ocr_model_dirs_spec(),
{
    let mut v: Vec<String> = Vec::new();
    v.push("apps/desktop/build/extraResources/models/PP-OCRv6".to_owned());
    v.push("build/extraResources/models/PP-OCRv6".to_owned());
    v.push("../desktop/build/extraResources/models/PP-OCRv6".to_owned());
    v.push("../../desktop/build/extraResources/models/PP-OCRv6".to_owned());
    v.push("../../../desktop/build/extraResources/models/PP-OCRv6".to_owned());
    v.push("../../../apps/desktop/build/extraResources/models/PP-OCRv6".to_owned());
    v.push("models/PP-OCRv6".to_owned());
    assert(v.deep_view() =~= ocr_model_dirs_spec());
    v
}

/// The model folders tried under the working folder and each of the
/// (at most five) folders above it.
pub fn ocr_model_ancestor_dirs() -> (r: Vec<String>)
    ensures
        r.deep_view() == seq![
            "apps/desktop/build/extraResources/models/PP-OCRv6"@,
            "build/extraResources/models/PP-OCRv6"@,
        ],
{
    let mut v: Vec<String> = Vec::new();
    v.push("apps/desktop/build/extraResources/models/PP-OCRv6".to_owned());
    v.push("build/extraResources/models/PP-OCRv6".to_owned());
    assert(v.deep_view() =~= seq![
        "apps/desktop/build/extraResources/models/PP-OCRv6"@,
        "build/extraResources/models/PP-OCRv6"@,
    ]);
    v
}

/// The files that mark a folder as holding the recognizer's model: the
/// small or tiny recognition model, or the small dictionary.
pub fn ocr_model_markers() -> (r: Vec<String>)
    ensures
        r.deep_view() == seq![
            "PP-OCRv6_rec_small.onnx"@,
            "PP-OCRv6_rec_tiny.onnx"@,
            "ppocr_keys_v6_small.txt"@,
        ],
{
    let mut v: Vec<String> = Vec::new();
    v.push("PP-OCRv6_rec_small.onnx".to_owned());
    v.push("PP-OCRv6_rec_tiny.onnx".to_owned());
    v.push("ppocr_keys_v6_small.txt".to_owned());
    assert(v.deep_view() =~= seq![
        "PP-OCRv6_rec_small.onnx"@,
        "PP-OCRv6_rec_tiny.onnx"@,
        "ppocr_keys_v6_small.txt"@,
    ]);
    v
}

} // verus!
