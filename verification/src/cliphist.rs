use vstd::prelude::*;
use vstd::string::StringExecFns;
use crate::cycle::views;
use crate::text::{concat, join_path, path_join, str_eq};

verus! {

/// Whether `regex::Regex::new(pattern)` fails; the message it gives then.
pub uninterp spec fn regex_error(pattern: Seq<char>) -> Option<Seq<char>>;

/// Whether the compiled `pattern` matches somewhere in `text` (`Regex::is_match`).
pub uninterp spec fn regex_is_match(pattern: Seq<char>, text: Seq<char>) -> bool;

/// The capture groups of the first match of `pattern` in `text`
/// (`Regex::captures`): group 0 is the whole match, a group that took no part
/// is `None`. `None` when there is no match.
pub uninterp spec fn regex_captures(pattern: Seq<char>, text: Seq<char>) -> Option<Seq<Option<Seq<char>>>>;

/// Compiles `pattern` with `regex::Regex::new` and tests it on `text` with
/// `Regex::is_match`. Claims only that the outcome is a function of the two
/// strings: the compile error, or whether the pattern matches.
#[verifier::external_body]
fn regex_test(pattern: &str, text: &str) -> (r: Result<bool, String>)
    ensures
        match r {
            Ok(b) => regex_error(pattern@) is None && b == regex_is_match(pattern@, text@),
            Err(e) => regex_error(pattern@) == Some(e@),
        },
{
    match regex::Regex::new(pattern) {
        Ok(re) => Ok(re.is_match(text)),
        Err(e) => Err(e.to_string()),
    }
}

/// Compiles `pattern` with `regex::Regex::new`, giving its error message if
/// it does not compile. Claims only that the outcome is a function of `pattern`.
#[verifier::external_body]
fn regex_check(pattern: &str) -> (r: Result<(), String>)
    ensures
        match r {
            Ok(()) => regex_error(pattern@) is None,
            Err(e) => regex_error(pattern@) == Some(e@),
        },
{
    match regex::Regex::new(pattern) {
        Ok(_) => Ok(()),
        Err(e) => Err(e.to_string()),
    }
}

/// The groups of a capture result by their characters.
pub open spec fn groups_view(g: Seq<Option<String>>) -> Seq<Option<Seq<char>>> {
    g.map_values(|o: Option<String>| match o {
        Some(s) => Some(s@),
        None => None,
    })
}

/// Compiles `pattern` with `regex::Regex::new` and takes the capture groups
/// of its first match in `text` with `Regex::captures`. Claims only that the
/// outcome is a function of the two strings.
#[verifier::external_body]
fn regex_groups(pattern: &str, text: &str) -> (r: Result<Option<Vec<Option<String>>>, String>)
    ensures
        match r {
            Ok(Some(g)) => regex_error(pattern@) is None && regex_captures(pattern@, text@) == Some(groups_view(g@)),
            Ok(None) => regex_error(pattern@) is None && regex_captures(pattern@, text@) is None,
            Err(e) => regex_error(pattern@) == Some(e@),
        },
{
    match regex::Regex::new(pattern) {
        Ok(re) => Ok(re.captures(text).map(|c| c.iter().map(|m| m.map(|m| m.as_str().to_string())).collect())),
        Err(e) => Err(e.to_string()),
    }
}

/// History lines that `cliphist list` prints for HTML clips, which are left out.
pub const SKIP_PATTERN: &'static str = r"^[0-9]+\s<meta http-equiv=";

/// History lines of image clips: their id and image type.
pub const IMAGE_PATTERN: &'static str = r"^([0-9]+)\s(?:\[\[\s)?binary.*(jpg|jpeg|png|bmp)";

/// An image clip: its history id and the name of its cached file.
pub struct ImageRef {
    pub id: String,
    pub file_name: String,
}

/// A line of the menu: the history line, and the image it shows if any.
pub struct HistoryLine {
    pub line: String,
    pub image: Option<ImageRef>,
}

/// The image of a history line: id and file name `<id>.<ext>`, from the
/// groups of the image pattern, when both groups are there.
pub open spec fn image_of(caps: Option<Seq<Option<Seq<char>>>>) -> Option<(Seq<char>, Seq<char>)> {
    match caps {
        Some(g) => if g.len() > 2 && g[1] is Some && g[2] is Some {
            Some((g[1]->0, g[1]->0 + "."@ + g[2]->0))
        } else {
            None
        },
        None => None,
    }
}

/// The menu entry of one history line: `None` for a line that is left out.
pub open spec fn entry_of(line: Seq<char>) -> Option<Option<(Seq<char>, Seq<char>)>> {
    if regex_is_match(SKIP_PATTERN@, line) {
        None
    } else {
        Some(image_of(regex_captures(IMAGE_PATTERN@, line)))
    }
}

/// Whether `h` shows `line` with image `img`.
pub open spec fn shows(h: HistoryLine, line: Seq<char>, img: Option<(Seq<char>, Seq<char>)>) -> bool {
    h.line@ == line && match (h.image, img) {
        (Some(i), Some(p)) => i.id@ == p.0 && i.file_name@ == p.1,
        (None, None) => true,
        _ => false,
    }
}

/// The menu entries for the history lines `lines`, in order: lines matching
/// the skip pattern are dropped, image lines carry their image.
pub open spec fn entries_of(lines: Seq<Seq<char>>) -> Seq<(Seq<char>, Option<(Seq<char>, Seq<char>)>)>
    decreases lines.len(),
{
    if lines.len() == 0 {
        Seq::empty()
    } else {
        let rest = entries_of(lines.drop_last());
        match entry_of(lines.last()) {
            Some(img) => rest.push((lines.last(), img)),
            None => rest,
        }
    }
}

/// Classifies the `cliphist list` lines: drops HTML clips and finds image
/// clips. Fails with the message of `Regex::new` if a pattern does not compile.
pub fn history_entries(lines: &[String]) -> (r: Result<Vec<HistoryLine>, String>)
    ensures
        match r {
            Ok(v) => regex_error(SKIP_PATTERN@) is None && regex_error(IMAGE_PATTERN@) is None && ({
                let e = entries_of(views(lines@));
                &&& v@.len() == e.len()
                &&& forall|i: int| 0 <= i < e.len() ==> shows(#[trigger] v@[i], e[i].0, e[i].1)
            }),
            Err(m) => (regex_error(SKIP_PATTERN@) == Some(m@) || (
            regex_error(SKIP_PATTERN@) is None && regex_error(IMAGE_PATTERN@) == Some(m@))),
        },
{
    regex_check(SKIP_PATTERN)?;
    regex_check(IMAGE_PATTERN)?;
    let mut out: Vec<HistoryLine> = Vec::new();
    let mut i: usize = 0;
    while i < lines.len()
        invariant
            i <= lines@.len(),
            regex_error(SKIP_PATTERN@) is None && regex_error(IMAGE_PATTERN@) is None,
            ({
                let e = entries_of(views(lines@).take(i as int));
                &&& out@.len() == e.len()
                &&& forall|k: int| 0 <= k < e.len() ==> shows(#[trigger] out@[k], e[k].0, e[k].1)
            }),
        decreases lines@.len() - i,
    {
        let ghost pre = views(lines@).take(i as int);
        assert(views(lines@).take(i + 1).drop_last() =~= pre);
        assert(views(lines@).take(i + 1).last() == lines@[i as int]@);
        let line = &lines[i];
        let skip = regex_test(SKIP_PATTERN, line.as_str())?;
        let groups = regex_groups(IMAGE_PATTERN, line.as_str())?;
        if !skip {
            let image = match groups {
                Some(g) => if g.len() > 2 {
                    match (&g[1], &g[2]) {
                        (Some(id), Some(ext)) => {
                            assert(groups_view(g@)[1] == Some(id@));
                            assert(groups_view(g@)[2] == Some(ext@));
                            let mut name = concat(id.as_str(), ".");
                            name.append(ext.as_str());
                            Some(ImageRef { id: id.clone(), file_name: name })
                        },
                        _ => {
                            assert(groups_view(g@)[1] is None || groups_view(g@)[2] is None);
                            None
                        },
                    }
                } else {
                    None
                },
                None => None,
            };
            out.push(HistoryLine { line: line.clone(), image });
        }
        i += 1;
    }
    assert(views(lines@).take(lines@.len() as int) =~= views(lines@));
    Ok(out)
}

/// Where the clip images are cached: `$XDG_CACHE_HOME/cliphist/img` when that
/// is set and not empty, else `$HOME/.cache/cliphist/img`.
pub fn cache_dir(xdg_cache_home: Option<&str>, home: Option<&str>) -> (r: Result<String, String>)
    ensures
        match xdg_cache_home {
            Some(x) if x@.len() > 0 => r matches Ok(p) && p@ == path_join(x@, "cliphist/img"@),
            _ => match home {
                Some(h) => r matches Ok(p) && p@ == path_join(h@, ".cache/cliphist/img"@),
                None => r matches Err(m) && m@ == "HOME environment variable is not set"@,
            },
        },
{
    proof {
        reveal_strlit("cliphist/img");
        reveal_strlit(".cache/cliphist/img");
        reveal_strlit("");
    }
    if let Some(x) = xdg_cache_home {
        if !str_eq(x, "") {
            assert(x@.len() > 0) by {
                if x@.len() == 0 {
                    assert(x@ =~= ""@);
                }
            }
            return Ok(join_path(x, "cliphist/img"));
        }
    }
    match home {
        Some(h) => Ok(join_path(h, ".cache/cliphist/img")),
        None => Err("HOME environment variable is not set".to_owned()),
    }
}

/// The menu line for `line`: with `\0icon\x1f<path>` appended when it shows
/// the image at `icon`.
pub fn menu_line(line: &str, icon: Option<&str>) -> (r: String)
    ensures
        r@ == match icon {
            Some(p) => line@ + "\0icon\x1f"@ + p@,
            None => line@,
        },
{
    match icon {
        Some(p) => {
            let mut s = concat(line, "\0icon\x1f");
            s.append(p);
            s
        },
        None => line.to_owned(),
    }
}

/// The cached file names of the image clips among `entries`, in order.
pub open spec fn image_files_of(entries: Seq<HistoryLine>) -> Seq<Seq<char>>
    decreases entries.len(),
{
    if entries.len() == 0 {
        Seq::empty()
    } else {
        let rest = image_files_of(entries.drop_last());
        match entries.last().image {
            Some(img) => rest.push(img.file_name@),
            None => rest,
        }
    }
}

/// The cached image of a listed clip is never pruned as stale: its file
/// name is among the image files of the entries.
pub proof fn lemma_listed_image_kept(entries: Seq<HistoryLine>, i: int)
    requires
        0 <= i < entries.len(),
        entries[i].image is Some,
    ensures
        image_files_of(entries).contains(entries[i].image->0.file_name@),
    decreases entries.len(),
{
    let rest = image_files_of(entries.drop_last());
    if i < entries.len() - 1 {
        lemma_listed_image_kept(entries.drop_last(), i);
        let k = choose|k: int| 0 <= k < rest.len() && rest[k] == entries[i].image->0.file_name@;
        if entries.last().image is Some {
            assert(image_files_of(entries)[k] == rest[k]);
        }
    } else {
        assert(image_files_of(entries).last() == entries[i].image->0.file_name@);
    }
}

/// The names of the cached images that the menu uses, in order.
pub fn image_files(entries: &[HistoryLine]) -> (r: Vec<String>)
    ensures
        views(r@) == image_files_of(entries@),
        forall|i: int|
            0 <= i < entries@.len() && (#[trigger] entries@[i]).image is Some ==> views(
                r@,
            ).contains(entries@[i].image->0.file_name@),
{
    let mut r: Vec<String> = Vec::new();
    let mut i: usize = 0;
    while i < entries.len()
        invariant
            i <= entries@.len(),
            views(r@) == image_files_of(entries@.take(i as int)),
        decreases entries@.len() - i,
    {
        assert(entries@.take(i + 1).drop_last() =~= entries@.take(i as int));
        if let Some(img) = &entries[i].image {
            r.push(img.file_name.clone());
            assert(views(r@) =~= image_files_of(entries@.take(i as int)).push(img.file_name@));
        }
        i += 1;
    }
    assert(entries@.take(entries@.len() as int) =~= entries@);
    proof {
        assert forall|i: int|
            0 <= i < entries@.len() && (#[trigger] entries@[i]).image is Some implies views(
            r@,
        ).contains(entries@[i].image->0.file_name@) by {
            lemma_listed_image_kept(entries@, i);
        }
    }
    r
}

/// Whether a cached file named `name` belongs to no clip of `valid`.
pub fn is_stale(name: &str, valid: &[String]) -> (r: bool)
    ensures
        r == !views(valid@).contains(name@),
{
    let mut i: usize = 0;
    while i < valid.len()
        invariant
            i <= valid@.len(),
            forall|k: int| 0 <= k < i ==> views(valid@)[k] != name@,
        decreases valid@.len() - i,
    {
        if str_eq(valid[i].as_str(), name) {
            assert(views(valid@)[i as int] == name@);
            return false;
        }
        i += 1;
    }
    true
}

/// How the decode jobs `0..n_jobs` are shared among at most `parallelism`
/// workers: `min(parallelism, n_jobs)` workers, job `i` going to worker
/// `i % workers`, each in job order.
pub fn share_jobs(n_jobs: usize, parallelism: usize) -> (r: Vec<Vec<usize>>)
    requires
        parallelism >= 1,
        1 <= n_jobs < usize::MAX / 2,
    ensures
        r@.len() == (if parallelism < n_jobs {
            parallelism
        } else {
            n_jobs
        }),
        forall|w: int|
            0 <= w < r@.len() ==> (#[trigger] r@[w])@ == Seq::new(
                ((n_jobs - w + r@.len() - 1) / (r@.len() as int)) as nat,
                |k: int| (w + k * r@.len()) as usize,
            ),
{
    let workers = if parallelism < n_jobs {
        parallelism
    } else {
        n_jobs
    };
    let mut chunks: Vec<Vec<usize>> = Vec::new();
    let mut w: usize = 0;
    while w < workers
        invariant
            w <= workers,
            1 <= workers <= n_jobs < usize::MAX / 2,
            chunks@.len() == w,
            forall|v: int| 0 <= v < w ==> (#[trigger] chunks@[v])@ == Seq::new(
                ((n_jobs - v + workers - 1) / workers as int) as nat,
                |k: int| (v + k * workers) as usize,
            ),
        decreases workers - w,
    {
        let mut c: Vec<usize> = Vec::new();
        let mut j: usize = w;
        let mut k: usize = 0;
        while j < n_jobs
            invariant
                w < workers <= n_jobs < usize::MAX / 2,
                j == w + k * workers,
                k <= j,
                j < n_jobs + workers,
                k == 0 || w + (k - 1) * workers < n_jobs,
                c@ == Seq::new(k as nat, |t: int| (w + t * workers) as usize),
            decreases n_jobs + workers - j,
        {
            c.push(j);
            assert(c@ =~= Seq::new((k + 1) as nat, |t: int| (w + t * workers) as usize));
            j = j + workers;
            k = k + 1;
            assert(j == w + k * workers) by (nonlinear_arith)
                requires
                    j == w + (k - 1) * workers + workers,
            ;
            assert(k <= j) by (nonlinear_arith)
                requires
                    j == w + k * workers,
                    workers >= 1,
                    k >= 0,
                    w >= 0,
            ;
        }
        assert(k == (n_jobs - w + workers - 1) / workers as int) by (nonlinear_arith)
            requires
                w + k * workers >= n_jobs,
                k == 0 || w + (k - 1) * workers < n_jobs,
                w < workers,
                workers >= 1,
        ;
        chunks.push(c);
        w += 1;
    }
    chunks
}

/// Every decode job goes to exactly one worker, once: with `workers` lists
/// shaped as `share_jobs` gives them (list `w` holds `w`, `w + workers`, ...
/// below `n_jobs`), job `j` is item `j / workers` of list `j % workers`, and
/// any list and position holding `j` are those.
pub proof fn lemma_job_placement(n_jobs: int, workers: int, j: int, w: int, k: int)
    requires
        1 <= workers <= n_jobs,
        0 <= j < n_jobs,
    ensures
        0 <= j % workers < workers,
        0 <= j / workers < (n_jobs - j % workers + workers - 1) / workers,
        j % workers + (j / workers) * workers == j,
        0 <= w < workers && 0 <= k && w + k * workers == j ==> w == j % workers && k == j / workers,
{
    vstd::arithmetic::div_mod::lemma_fundamental_div_mod(j, workers);
    let q = j / workers;
    let m = j % workers;
    assert(q * workers == workers * q) by (nonlinear_arith);
    assert(0 <= q) by (nonlinear_arith)
        requires
            j >= 0,
            workers >= 1,
            q == j / workers,
    ;
    assert(q < (n_jobs - m + workers - 1) / workers) by (nonlinear_arith)
        requires
            m + q * workers == j,
            j < n_jobs,
            0 <= m < workers,
            q >= 0,
    ;
    if 0 <= w < workers && 0 <= k && w + k * workers == j {
        vstd::arithmetic::div_mod::lemma_fundamental_div_mod_converse(j, workers, k, w);
    }
}

} // verus!
