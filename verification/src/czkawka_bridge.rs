//! The decisions of a cleanup scan: which detection tools run, how progress
//! is reported, how much space a group frees and how groups add up.
//! The detection tools themselves run outside this library.
use vstd::prelude::*;
use crate::text::chars_eq;

pub use crate::paths::to_native_path_str;

verus! {

/// The bridge to the cleanup engine's detection tools.
pub struct CzkawkaBridge;

/// Which detection tools a scan runs.
pub struct ScanPlan {
    pub run_exact: bool,
    pub run_image: bool,
    pub run_audio: bool,
    pub run_video: bool,
    pub run_bad_ext: bool,
    pub run_empty_folders: bool,
    pub run_big_files: bool,
    pub run_empty_files: bool,
    pub run_temporary_files: bool,
    pub run_invalid_symlinks: bool,
    pub run_broken_files: bool,
    pub run_bad_names: bool,
    pub run_exif_remover: bool,
    pub run_video_optimizer: bool,
    /// Bad-name detection in strict ASCII mode (else multilingual names are kept).
    pub strict_ascii_names: bool,
}

/// Whether some strategy in the list is one of the given names.
pub open spec fn names_any(list: Seq<Seq<char>>, names: Seq<Seq<char>>) -> bool {
    exists|i: int, j: int| 0 <= i < list.len() && 0 <= j < names.len() && list[i] == names[j]
}

/// The strategies of a request: the given list, or exact and image hashing.
pub open spec fn enabled_strategies(strategies: Option<Seq<Seq<char>>>) -> Seq<Seq<char>> {
    match strategies {
        Some(s) => s,
        None => seq!["exact_hash"@, "image_phash"@],
    }
}

/// The plan of a scan request.
pub open spec fn scan_plan_spec(
    strategies: Option<Seq<Seq<char>>>,
    check_video: Option<bool>,
    name_issues_mode: Option<Seq<char>>,
    p: ScanPlan,
) -> bool {
    let s = enabled_strategies(strategies);
    &&& p.run_exact == names_any(s, seq!["exact_hash"@, "exact"@, "duplicates"@])
    &&& p.run_image == names_any(s, seq!["image_phash"@, "image"@, "similar_images"@])
    &&& p.run_audio == names_any(s, seq!["audio_hash"@, "audio"@, "same_music"@])
    &&& p.run_video == (check_video == Some(true) || names_any(
        s,
        seq!["video_phash"@, "video"@, "similar_videos"@],
    ))
    &&& p.run_bad_ext == names_any(s, seq!["bad_extensions"@])
    &&& p.run_empty_folders == names_any(s, seq!["empty_folders"@, "empty_folder"@])
    &&& p.run_big_files == names_any(s, seq!["big_files"@, "big_file"@])
    &&& p.run_empty_files == names_any(s, seq!["empty_files"@, "empty_file"@])
    &&& p.run_temporary_files == names_any(s, seq!["temporary_files"@, "temporary"@])
    &&& p.run_invalid_symlinks == names_any(s, seq!["invalid_symlinks"@, "invalid_symlink"@])
    &&& p.run_broken_files == names_any(s, seq!["broken_files"@, "broken_file"@])
    &&& p.run_bad_names == names_any(s, seq!["bad_names"@, "bad_name"@])
    &&& p.run_exif_remover == names_any(s, seq!["exif_remover"@])
    &&& p.run_video_optimizer == names_any(s, seq!["video_optimizer"@])
    &&& p.strict_ascii_names == (name_issues_mode == Some("strict_ascii"@))
}

/// The views of an optional list of strings.
pub open spec fn opt_string_views(o: Option<Vec<String>>) -> Option<Seq<Seq<char>>> {
    match o {
        Some(v) => Some(v@.map_values(|s: String| s@)),
        None => None,
    }
}

/// The view of an optional string slice.
pub open spec fn opt_str_view(o: Option<&str>) -> Option<Seq<char>> {
    match o {
        Some(s) => Some(s@),
        None => None,
    }
}

/// Whether the list holds the name.
fn has_name(list: &Vec<Vec<char>>, name: &str) -> (r: bool)
    ensures
        r == exists|i: int| 0 <= i < list@.len() && (#[trigger] list@[i])@ == name@,
{
    let n = crate::text::chars_of(name);
    let mut i: usize = 0;
    while i < list.len()
        invariant
            i <= list@.len(),
            n@ == name@,
            forall|k: int| 0 <= k < i ==> (#[trigger] list@[k])@ != name@,
        decreases list.len() - i,
    {
        if chars_eq(&list[i], &n) {
            return true;
        }
        i = i + 1;
    }
    false
}

/// The views of a list of character vectors.
pub open spec fn char_vec_views(l: Seq<Vec<char>>) -> Seq<Seq<char>> {
    l.map_values(|s: Vec<char>| s@)
}

fn any_named1(list: &Vec<Vec<char>>, a: &str) -> (r: bool)
    ensures
        r == names_any(char_vec_views(list@), seq![a@]),
{
    let r = has_name(list, a);
    proof {
        let l = char_vec_views(list@);
        if r {
            let i = choose|i: int| 0 <= i < list@.len() && (#[trigger] list@[i])@ == a@;
            assert(l[i] == seq![a@][0]);
        }
        if names_any(l, seq![a@]) {
            let (i, j) = choose|i: int, j: int| 0 <= i < l.len() && 0 <= j < 1 && l[i] == seq![a@][j];
            assert(list@[i]@ == a@);
        }
    }
    r
}

fn any_named2(list: &Vec<Vec<char>>, a: &str, b: &str) -> (r: bool)
    ensures
        r == names_any(char_vec_views(list@), seq![a@, b@]),
{
    let ra = has_name(list, a);
    let rb = has_name(list, b);
    proof {
        let l = char_vec_views(list@);
        let ns = seq![a@, b@];
        if ra {
            let i = choose|i: int| 0 <= i < list@.len() && (#[trigger] list@[i])@ == a@;
            assert(l[i] == ns[0]);
        }
        if rb {
            let i = choose|i: int| 0 <= i < list@.len() && (#[trigger] list@[i])@ == b@;
            assert(l[i] == ns[1]);
        }
        if names_any(l, ns) {
            let (i, j) = choose|i: int, j: int| 0 <= i < l.len() && 0 <= j < ns.len() && l[i] == ns[j];
            assert(list@[i]@ == ns[j]);
        }
    }
    ra || rb
}

fn any_named3(list: &Vec<Vec<char>>, a: &str, b: &str, c: &str) -> (r: bool)
    ensures
        r == names_any(char_vec_views(list@), seq![a@, b@, c@]),
{
    let ra = has_name(list, a);
    let rb = has_name(list, b);
    let rc = has_name(list, c);
    proof {
        let l = char_vec_views(list@);
        let ns = seq![a@, b@, c@];
        if ra {
            let i = choose|i: int| 0 <= i < list@.len() && (#[trigger] list@[i])@ == a@;
            assert(l[i] == ns[0]);
        }
        if rb {
            let i = choose|i: int| 0 <= i < list@.len() && (#[trigger] list@[i])@ == b@;
            assert(l[i] == ns[1]);
        }
        if rc {
            let i = choose|i: int| 0 <= i < list@.len() && (#[trigger] list@[i])@ == c@;
            assert(l[i] == ns[2]);
        }
        if names_any(l, ns) {
            let (i, j) = choose|i: int, j: int| 0 <= i < l.len() && 0 <= j < ns.len() && l[i] == ns[j];
            assert(list@[i]@ == ns[j]);
        }
    }
    ra || rb || rc
}

impl CzkawkaBridge {
    /// Decides which detection tools a scan runs: a tool runs when one of
    /// its strategy names is requested (the default request is exact and
    /// image hashing); video also runs when `check_video` is set.
    pub fn plan_scan(
        strategies: Option<Vec<String>>,
        check_video: Option<bool>,
        name_issues_mode: Option<&str>,
    ) -> (r: ScanPlan)
        ensures
            scan_plan_spec(
                opt_string_views(strategies),
                check_video,
                opt_str_view(name_issues_mode),
                r,
            ),
    {
        let mut list: Vec<Vec<char>> = Vec::new();
        let ghost s = enabled_strategies(opt_string_views(strategies));
        match &strategies {
            Some(v) => {
                let mut i: usize = 0;
                while i < v.len()
                    invariant
                        i <= v@.len(),
                        list@.len() == i,
                        forall|k: int| 0 <= k < i ==> (#[trigger] list@[k])@ == v@[k]@,
                    decreases v.len() - i,
                {
                    list.push(crate::text::chars_of(v[i].as_str()));
                    i = i + 1;
                }
            },
            None => {
                list.push(crate::text::chars_of("exact_hash"));
                list.push(crate::text::chars_of("image_phash"));
            },
        }
        assert(char_vec_views(list@) =~= s);
        let video_flag = match check_video {
            Some(b) => b,
            None => false,
        };
        let strict = match name_issues_mode {
            Some(m) => chars_eq(&crate::text::chars_of(m), &crate::text::chars_of("strict_ascii")),
            None => false,
        };
        let plan = ScanPlan {
            run_exact: any_named3(&list, "exact_hash", "exact", "duplicates"),
            run_image: any_named3(&list, "image_phash", "image", "similar_images"),
            run_audio: any_named3(&list, "audio_hash", "audio", "same_music"),
            run_video: video_flag || any_named3(&list, "video_phash", "video", "similar_videos"),
            run_bad_ext: any_named1(&list, "bad_extensions"),
            run_empty_folders: any_named2(&list, "empty_folders", "empty_folder"),
            run_big_files: any_named2(&list, "big_files", "big_file"),
            run_empty_files: any_named2(&list, "empty_files", "empty_file"),
            run_temporary_files: any_named2(&list, "temporary_files", "temporary"),
            run_invalid_symlinks: any_named2(&list, "invalid_symlinks", "invalid_symlink"),
            run_broken_files: any_named2(&list, "broken_files", "broken_file"),
            run_bad_names: any_named2(&list, "bad_names", "bad_name"),
            run_exif_remover: any_named1(&list, "exif_remover"),
            run_video_optimizer: any_named1(&list, "video_optimizer"),
            strict_ascii_names: strict,
        };
        plan
    }

    /// Overall progress percentage: completed strategies count whole, the
    /// current one by its share of checked files, averaged over the
    /// strategies (at least one) and capped at 100.
    pub fn overall_progress(
        current_step: usize,
        current_stage: usize,
        files_to_check: usize,
        total_strategies: usize,
    ) -> (r: usize)
        requires
            current_step * 100 + current_stage * 100 <= usize::MAX,
        ensures
            r == min_spec(
                ((current_step * 100 + (if files_to_check > 0 {
                    (current_stage * 100) / (files_to_check as int)
                } else {
                    0
                })) / max_spec(total_strategies as int, 1)),
                100,
            ),
    {
        let current_pct = if files_to_check > 0 {
            (current_stage * 100) / files_to_check
        } else {
            0
        };
        assert(current_pct <= current_stage * 100) by (nonlinear_arith)
            requires
                current_pct == (if files_to_check > 0 {
                    (current_stage * 100) / (files_to_check as int)
                } else {
                    0
                }),
        ;
        let denom = if total_strategies > 1 {
            total_strategies
        } else {
            1
        };
        let overall = (current_step * 100 + current_pct) / denom;
        if overall < 100 {
            overall
        } else {
            100
        }
    }

    /// Space a group of identical files frees: all copies but one.
    pub fn exact_group_freed_bytes(size: u64, count: u64) -> (r: u64)
        requires
            count >= 1,
            size * (count - 1) <= u64::MAX,
        ensures
            r == size * (count - 1),
    {
        size * (count - 1)
    }

    /// Space a group of similar files frees: the average size (rounded
    /// down) times all files but one.
    pub fn similar_group_freed_bytes(sizes: &[u64]) -> (r: u64)
        requires
            sizes@.len() >= 1,
            sum_u64(sizes@) <= u64::MAX,
            (sum_u64(sizes@) / (sizes@.len() as int)) * (sizes@.len() - 1) <= u64::MAX,
        ensures
            r == (sum_u64(sizes@) / (sizes@.len() as int)) * (sizes@.len() - 1),
    {
        let total = sum_u64_exec(sizes);
        let n = sizes.len() as u64;
        let avg = total / n;
        avg * (n - 1)
    }

    /// The files at least 10 MiB in size, in order.
    pub fn filter_big_files(sizes: &[u64]) -> (r: Vec<usize>)
        ensures
            r@ == big_file_indices(sizes@, sizes@.len() as int),
    {
        let mut r: Vec<usize> = Vec::new();
        let mut i: usize = 0;
        while i < sizes.len()
            invariant
                i <= sizes@.len(),
                r@ == big_file_indices(sizes@, i as int),
            decreases sizes.len() - i,
        {
            if sizes[i] >= MIN_BIG_FILE_SIZE {
                r.push(i);
            }
            i = i + 1;
        }
        r
    }

    /// Adds up the groups of a scan: freed bytes, redundant files (all files
    /// of a group but one) and the number of files scanned (the tools'
    /// count, or the files in groups when that is larger).
    pub fn summarize_groups(groups: &[GroupSummary], files_seen: usize) -> (r: ScanTotals)
        requires
            sum_freed(groups@) <= u64::MAX,
            sum_files(groups@) <= usize::MAX,
        ensures
            r.total_freed_bytes == sum_freed(groups@),
            r.total_redundant_files == sum_redundant(groups@),
            r.total_scanned == max_spec(files_seen as int, sum_files(groups@)),
    {
        let mut freed: u64 = 0;
        let mut redundant: usize = 0;
        let mut files: usize = 0;
        let mut i: usize = 0;
        while i < groups.len()
            invariant
                i <= groups@.len(),
                sum_freed(groups@) <= u64::MAX,
                sum_files(groups@) <= usize::MAX,
                freed == sum_freed(groups@.take(i as int)),
                redundant == sum_redundant(groups@.take(i as int)),
                files == sum_files(groups@.take(i as int)),
            decreases groups.len() - i,
        {
            proof {
                assert(groups@.take(i + 1).drop_last() =~= groups@.take(i as int));
                lemma_sums_prefix(groups@, i as int + 1);
            }
            let g = &groups[i];
            freed = freed + g.freed_bytes;
            if g.file_count > 1 {
                redundant = redundant + (g.file_count - 1);
            }
            files = files + g.file_count;
            i = i + 1;
        }
        assert(groups@.take(groups@.len() as int) =~= groups@);
        ScanTotals {
            total_freed_bytes: freed,
            total_redundant_files: redundant,
            total_scanned: if files_seen > files {
                files_seen
            } else {
                files
            },
        }
    }
}

/// The big-file threshold: 10 MiB.
pub const MIN_BIG_FILE_SIZE: u64 = 10485760;

/// The indices, below `n`, of sizes at least `MIN_BIG_FILE_SIZE`.
pub open spec fn big_file_indices(sizes: Seq<u64>, n: int) -> Seq<usize>
    decreases n,
{
    if n <= 0 {
        Seq::empty()
    } else if sizes[n - 1] >= MIN_BIG_FILE_SIZE {
        big_file_indices(sizes, n - 1).push((n - 1) as usize)
    } else {
        big_file_indices(sizes, n - 1)
    }
}

/// A result group, as far as the totals need it.
pub struct GroupSummary {
    pub file_count: usize,
    pub freed_bytes: u64,
}

/// The totals of a scan.
pub struct ScanTotals {
    pub total_freed_bytes: u64,
    pub total_redundant_files: usize,
    pub total_scanned: usize,
}

pub open spec fn min_spec(a: int, b: int) -> int {
    if a < b {
        a
    } else {
        b
    }
}

pub open spec fn max_spec(a: int, b: int) -> int {
    if a > b {
        a
    } else {
        b
    }
}

/// The sum of a sequence of sizes.
pub open spec fn sum_u64(s: Seq<u64>) -> int
    decreases s.len(),
{
    if s.len() == 0 {
        0
    } else {
        sum_u64(s.drop_last()) + s.last()
    }
}

/// The bytes freed by all groups.
pub open spec fn sum_freed(g: Seq<GroupSummary>) -> int
    decreases g.len(),
{
    if g.len() == 0 {
        0
    } else {
        sum_freed(g.drop_last()) + g.last().freed_bytes
    }
}

/// The files in all groups.
pub open spec fn sum_files(g: Seq<GroupSummary>) -> int
    decreases g.len(),
{
    if g.len() == 0 {
        0
    } else {
        sum_files(g.drop_last()) + g.last().file_count
    }
}

/// The redundant files of all groups: each group's files but one.
pub open spec fn sum_redundant(g: Seq<GroupSummary>) -> int
    decreases g.len(),
{
    if g.len() == 0 {
        0
    } else {
        sum_redundant(g.drop_last()) + (if g.last().file_count > 1 {
            g.last().file_count - 1
        } else {
            0
        })
    }
}

/// The number of non-empty groups.
pub open spec fn count_nonempty(g: Seq<GroupSummary>) -> int
    decreases g.len(),
{
    if g.len() == 0 {
        0
    } else {
        count_nonempty(g.drop_last()) + (if g.last().file_count > 0 {
            1int
        } else {
            0
        })
    }
}

/// Every group keeps one file and the rest are redundant: the redundant
/// total is the number of files in all groups less one per non-empty group.
pub proof fn law_one_file_of_each_group_is_kept(g: Seq<GroupSummary>)
    ensures
        sum_redundant(g) == sum_files(g) - count_nonempty(g),
        count_nonempty(g) <= g.len(),
    decreases g.len(),
{
    if g.len() > 0 {
        law_one_file_of_each_group_is_kept(g.drop_last());
    }
}

/// A single group of `n >= 1` identical files has `n - 1` redundant files,
/// strictly fewer than the files in the group; adding a group adds its
/// files but one to the total.
pub proof fn law_group_redundancy(g: Seq<GroupSummary>, x: GroupSummary)
    ensures
        x.file_count >= 1 ==> sum_redundant(seq![x]) == x.file_count - 1,
        x.file_count >= 1 ==> sum_redundant(seq![x]) < sum_files(seq![x]),
        x.file_count >= 1 ==> sum_redundant(g.push(x)) == sum_redundant(g) + x.file_count - 1,
{
    let one = seq![x];
    assert(one.drop_last() =~= Seq::<GroupSummary>::empty());
    assert(one.last() == x);
    assert(sum_redundant(one.drop_last()) == 0);
    assert(sum_files(one.drop_last()) == 0);
    assert(g.push(x).drop_last() =~= g);
}

/// The totals grow group by group: another group adds its freed bytes and
/// its files; the scanned count is never below the tools' count nor below
/// the files in the groups, and is one of the two.
pub proof fn law_totals_add_up(g: Seq<GroupSummary>, x: GroupSummary, files_seen: int)
    ensures
        sum_freed(g.push(x)) == sum_freed(g) + x.freed_bytes,
        sum_files(g.push(x)) == sum_files(g) + x.file_count,
        sum_freed(Seq::<GroupSummary>::empty()) == 0 && sum_files(Seq::<GroupSummary>::empty()) == 0
            && sum_redundant(Seq::<GroupSummary>::empty()) == 0,
        max_spec(files_seen, sum_files(g)) >= files_seen,
        max_spec(files_seen, sum_files(g)) >= sum_files(g),
        max_spec(files_seen, sum_files(g)) == files_seen || max_spec(files_seen, sum_files(g)) == sum_files(g),
{
    assert(g.push(x).drop_last() =~= g);
}

proof fn lemma_sums_prefix(g: Seq<GroupSummary>, k: int)
    requires
        0 <= k <= g.len(),
    ensures
        sum_freed(g.take(k)) <= sum_freed(g),
        sum_files(g.take(k)) <= sum_files(g),
        sum_redundant(g.take(k)) <= sum_files(g.take(k)),
    decreases g.len(),
{
    if k == g.len() {
        assert(g.take(k) =~= g);
        lemma_redundant_le_files(g);
    } else {
        assert(g.drop_last().take(k) =~= g.take(k));
        lemma_sums_prefix(g.drop_last(), k);
    }
}

proof fn lemma_redundant_le_files(g: Seq<GroupSummary>)
    ensures
        sum_redundant(g) <= sum_files(g),
    decreases g.len(),
{
    if g.len() > 0 {
        lemma_redundant_le_files(g.drop_last());
    }
}

proof fn lemma_sum_u64_prefix(s: Seq<u64>, k: int)
    requires
        0 <= k <= s.len(),
    ensures
        sum_u64(s.take(k)) <= sum_u64(s),
    decreases s.len(),
{
    if k == s.len() {
        assert(s.take(k) =~= s);
    } else {
        assert(s.drop_last().take(k) =~= s.take(k));
        lemma_sum_u64_prefix(s.drop_last(), k);
    }
}

fn sum_u64_exec(s: &[u64]) -> (r: u64)
    requires
        sum_u64(s@) <= u64::MAX,
    ensures
        r == sum_u64(s@),
{
    let mut t: u64 = 0;
    let mut i: usize = 0;
    while i < s.len()
        invariant
            i <= s@.len(),
            sum_u64(s@) <= u64::MAX,
            t == sum_u64(s@.take(i as int)),
        decreases s.len() - i,
    {
        proof {
            assert(s@.take(i + 1).drop_last() =~= s@.take(i as int));
            lemma_sum_u64_prefix(s@, i as int + 1);
        }
        t = t + s[i];
        i = i + 1;
    }
    assert(s@.take(s@.len() as int) =~= s@);
    t
}

} // verus!
