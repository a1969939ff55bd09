use vstd::prelude::*;
use vstd::string::StringExecFns;
use crate::text::{chars_of, concat, decimal, decimal_text, str_eq, string_of};

verus! {

/// Whether `b` starts with `p`.
pub open spec fn bytes_start_with(b: Seq<u8>, p: Seq<u8>) -> bool {
    p.len() <= b.len() && b.take(p.len() as int) == p
}

/// What `content_inspector::inspect` calls binary: no UTF-8, UTF-16 or UTF-32
/// byte order mark at the start, and a zero byte among the first 1024 bytes,
/// or a PDF or PNG signature at the start.
pub open spec fn inspects_binary(b: Seq<u8>) -> bool {
    let bom = bytes_start_with(b, seq![0xEFu8, 0xBB, 0xBF]) || bytes_start_with(
        b,
        seq![0x00u8, 0x00, 0xFE, 0xFF],
    ) || bytes_start_with(b, seq![0xFFu8, 0xFE, 0x00, 0x00]) || bytes_start_with(
        b,
        seq![0xFEu8, 0xFF],
    ) || bytes_start_with(b, seq![0xFFu8, 0xFE]);
    let scan = if b.len() < 1024 {
        b.len()
    } else {
        1024
    };
    !bom && ((exists|i: int| 0 <= i < scan && b[i] == 0) || bytes_start_with(
        b,
        seq![0x25u8, 0x50, 0x44, 0x46],
    ) || bytes_start_with(b, seq![0x89u8, 0x50, 0x4E, 0x47]))
}

/// `content_inspector::inspect(buffer) == ContentType::BINARY`. The contract
/// restates that function's byte-order-mark, zero-byte and signature checks.
#[verifier::external_body]
fn inspect_is_binary(buffer: &[u8]) -> (r: bool)
    ensures
        r == inspects_binary(buffer@),
{
    content_inspector::inspect(buffer) == content_inspector::ContentType::BINARY
}

/// Whether a file whose first bytes are `head` (up to 1024 of them) is dumped
/// as binary: an empty file is text.
pub fn is_binary(head: &[u8]) -> (r: bool)
    ensures
        r == (head@.len() > 0 && inspects_binary(head@)),
{
    if head.len() == 0 {
        return false;
    }
    inspect_is_binary(head)
}

/// File names that are never dumped.
pub open spec fn is_ignored_file(name: Seq<char>) -> bool {
    name == "Cargo.lock"@ || name == "gradlew"@ || name == "gradlew.bat"@
}

/// Whether a file named `name` is never dumped.
pub fn ignored_file(name: &str) -> (r: bool)
    ensures
        r == is_ignored_file(name@),
        r == (name@ == "Cargo.lock"@ || name@ == "gradlew"@ || name@ == "gradlew.bat"@),
{
    str_eq(name, "Cargo.lock") || str_eq(name, "gradlew") || str_eq(name, "gradlew.bat")
}

/// The names that are never dumped are exactly `Cargo.lock`, `gradlew` and
/// `gradlew.bat`.
pub proof fn lemma_ignored_names(name: Seq<char>)
    ensures
        is_ignored_file(name) <==> (name == "Cargo.lock"@ || name == "gradlew"@ || name
            == "gradlew.bat"@),
{
}

/// `s` with each code fence `` ``` `` (left to right, not overlapping)
/// replaced by `` ` ` ` ``, so that a dumped line cannot close the block.
pub open spec fn unfenced(s: Seq<char>) -> Seq<char>
    decreases s.len(),
{
    if s.len() >= 3 && s[0] == '`' && s[1] == '`' && s[2] == '`' {
        seq!['`', ' ', '`', ' ', '`'] + unfenced(s.skip(3))
    } else if s.len() > 0 {
        seq![s[0]] + unfenced(s.drop_first())
    } else {
        Seq::empty()
    }
}

proof fn lemma_unfenced_step(s: Seq<char>, i: int)
    requires
        0 <= i < s.len(),
    ensures
        i + 3 <= s.len() && s[i] == '`' && s[i + 1] == '`' && s[i + 2] == '`' ==> unfenced(s.skip(i))
            == seq!['`', ' ', '`', ' ', '`'] + unfenced(s.skip(i + 3)),
        !(i + 3 <= s.len() && s[i] == '`' && s[i + 1] == '`' && s[i + 2] == '`') ==> unfenced(
            s.skip(i),
        ) == seq![s[i]] + unfenced(s.skip(i + 1)),
{
    let t = s.skip(i);
    assert(t.skip(3) =~= s.skip(i + 3) || t.len() < 3);
    if t.len() >= 3 {
        assert(t.skip(3) =~= s.skip(i + 3));
    }
    assert(t.drop_first() =~= s.skip(i + 1));
}

/// `line` with code fences broken up (`line.replace("```", "` ` `")`).
pub fn escape_fences(line: &str) -> (r: String)
    ensures
        r@ == unfenced(line@),
{
    let c = chars_of(line);
    let mut out: Vec<char> = Vec::new();
    let mut i: usize = 0;
    assert(c@.skip(0) =~= c@);
    while i < c.len()
        invariant
            i <= c@.len(),
            out@ + unfenced(c@.skip(i as int)) == unfenced(c@),
        decreases c@.len() - i,
    {
        proof {
            lemma_unfenced_step(c@, i as int);
        }
        if c.len() - i >= 3 && c[i] == '`' && c[i + 1] == '`' && c[i + 2] == '`' {
            let ghost old_out = out@;
            out.push('`');
            out.push(' ');
            out.push('`');
            out.push(' ');
            out.push('`');
            assert(out@ =~= old_out + seq!['`', ' ', '`', ' ', '`']);
            i += 3;
        } else {
            let ghost old_out = out@;
            out.push(c[i]);
            assert(out@ =~= old_out + seq![c@[i as int]]);
            i += 1;
        }
    }
    assert(c@.skip(i as int) =~= Seq::<char>::empty());
    assert(unfenced(Seq::<char>::empty()) =~= Seq::<char>::empty());
    assert(out@ + Seq::<char>::empty() =~= out@);
    string_of(out.as_slice())
}

/// The extension of a file named `name` (`Path::extension`): the text after
/// its last `.`, unless that dot is its first character; empty when there is
/// none.
pub open spec fn extension(name: Seq<char>) -> Seq<char> {
    if exists|i: int| 0 < i < name.len() && name[i] == '.' {
        let d = choose|i: int|
            0 < i < name.len() && name[i] == '.' && forall|j: int| i < j < name.len() ==> name[j] != '.';
        name.skip(d + 1)
    } else {
        Seq::empty()
    }
}

/// The extension of a file named `name`, or an empty string.
pub fn file_extension(name: &str) -> (r: String)
    ensures
        r@ == extension(name@),
{
    let c = chars_of(name);
    let mut i = c.len();
    while i > 1 && c[i - 1] != '.'
        invariant
            i <= c@.len(),
            forall|j: int| i <= j < c@.len() ==> c@[j] != '.',
        decreases i,
    {
        i -= 1;
    }
    if i > 1 {
        let d = i - 1;
        proof {
            let e = choose|k: int|
                0 < k < c@.len() && c@[k] == '.' && forall|j: int| k < j < c@.len() ==> c@[j] != '.';
            assert(0 < d < c@.len() && c@[d as int] == '.');
            if e < d {
                assert(c@[d as int] != '.');
            }
            if e > d {
                assert(c@[e] != '.');
            }
        }
        let mut out: Vec<char> = Vec::new();
        let mut k = i;
        while k < c.len()
            invariant
                i <= k <= c@.len(),
                out@ == c@.subrange(i as int, k as int),
            decreases c@.len() - k,
        {
            out.push(c[k]);
            k += 1;
        }
        assert(out@ =~= c@.skip(i as int));
        string_of(out.as_slice())
    } else {
        proof {
            assert forall|k: int| 0 < k < c@.len() implies c@[k] != '.' by {
                if k >= i {
                } else {
                    assert(k < 1);
                }
            }
        }
        String::new()
    }
}

/// The opening lines of the dump: title, notice, root directory and date.
pub open spec fn dump_header(root: Seq<char>, generated_on: Seq<char>) -> Seq<char> {
    "# Codebase Dump\n\n"@ + "> **NOTICE FOR AI:** The following content is a representation of a codebase state for context. Do not copy the Markdown formatting or structure used in this dump for your own output responses.\n\n"@
        + "- **Root Directory:** `"@ + root + "`\n"@ + "- **Generated on:** "@ + generated_on
        + "\n\n"@ + "---\n\n"@
}

/// The opening lines of the dump for root directory `root`, generated on
/// `generated_on`.
pub fn dump_header_text(root: &str, generated_on: &str) -> (r: String)
    ensures
        r@ == dump_header(root@, generated_on@),
{
    let mut s = concat("# Codebase Dump\n\n", "> **NOTICE FOR AI:** The following content is a representation of a codebase state for context. Do not copy the Markdown formatting or structure used in this dump for your own output responses.\n\n");
    s.append("- **Root Directory:** `");
    s.append(root);
    s.append("`\n");
    s.append("- **Generated on:** ");
    s.append(generated_on);
    s.append("\n\n");
    s.append("---\n\n");
    s
}

/// The lines that open the block of one dumped file.
pub open spec fn file_header(display: Seq<char>, size: nat, modified: Seq<char>, ext: Seq<char>) -> Seq<char> {
    "## File: `./"@ + display + "`\n"@ + "- **Size:** "@ + decimal(size) + " bytes | **Modified:** "@
        + modified + "\n"@ + "\n```"@ + ext + "\n"@
}

/// The lines that open the block of the file shown as `display`, of `size`
/// bytes, modified at `modified`, with extension `ext`.
pub fn file_header_text(display: &str, size: u64, modified: &str, ext: &str) -> (r: String)
    ensures
        r@ == file_header(display@, size as nat, modified@, ext@),
{
    let mut s = concat("## File: `./", display);
    s.append("`\n");
    s.append("- **Size:** ");
    let n = decimal_text(size);
    s.append(n.as_str());
    s.append(" bytes | **Modified:** ");
    s.append(modified);
    s.append("\n");
    s.append("\n```");
    s.append(ext);
    s.append("\n");
    s
}

/// The line written for a file line that is not UTF-8.
pub const NON_UTF8_LINE: &'static str = "[NON-UTF8-SEQUENCE-REMOVED]";

/// The lines that close the block of a dumped file.
pub const FILE_FOOTER: &'static str = "```\n\n---\n\n";

/// What the dump does with one entry of the directory walk.
#[derive(Debug, Clone, Copy, PartialEq, Eq, Structural)]
pub enum WalkAction {
    /// A directory, the dump itself, or an ignored name: left out.
    Skip,
    /// The `llms.txt` of the root: dumped after everything else.
    Defer,
    /// Dumped now.
    Dump,
}

/// Decides what to do with a walked entry: directories, ignored file names
/// and the output file are left out, the root's `llms.txt` waits for the
/// end, the rest is dumped. `same_as_output` and `is_root_llms` tell whether
/// the entry's resolved path is the output file or the root's `llms.txt`
/// (`None` when it could not be resolved).
pub fn walk_action(is_dir: bool, file_name: Option<&str>, resolved: Option<(bool, bool)>) -> (r: WalkAction)
    ensures
        file_name matches Some(n) && (n@ == "Cargo.lock"@ || n@ == "gradlew"@ || n@ == "gradlew.bat"@)
            ==> r == WalkAction::Skip,
        r == (if is_dir {
            WalkAction::Skip
        } else if file_name matches Some(n) && is_ignored_file(n@) {
            WalkAction::Skip
        } else if resolved matches Some((out, _)) && out {
            WalkAction::Skip
        } else if resolved matches Some((_, llms)) && llms {
            WalkAction::Defer
        } else {
            WalkAction::Dump
        }),
{
    if is_dir {
        return WalkAction::Skip;
    }
    if let Some(n) = file_name {
        if ignored_file(n) {
            return WalkAction::Skip;
        }
    }
    if let Some((out, llms)) = resolved {
        if out {
            return WalkAction::Skip;
        }
        if llms {
            return WalkAction::Defer;
        }
    }
    WalkAction::Dump
}


/// What `Path::strip_prefix(path, base)` gives for paths spelled `path` and
/// `base`: the rest of `path` after the components of `base`, or `None` when
/// `base` is not a leading run of its components. How components are read
/// (repeated and trailing separators, `.`) is left to that function.
pub uninterp spec fn path_strip_prefix(path: Seq<char>, base: Seq<char>) -> Option<Seq<char>>;

/// `Path::new(path).strip_prefix(base)`, the remainder spelled as a string.
/// Its result is named, not restated.
#[verifier::external_body]
fn strip_path_prefix(path: &str, base: &str) -> (r: Option<String>)
    ensures
        match r {
            Some(s) => path_strip_prefix(path@, base@) == Some(s@),
            None => path_strip_prefix(path@, base@) is None,
        },
{
    std::path::Path::new(path).strip_prefix(base).ok().map(|p| p.to_string_lossy().into_owned())
}

/// The path shown for `path`: what is left after `base` was stripped from
/// it, or the whole of `path` when it does not lie under `base`.
pub fn relative_or_whole(path: &str, stripped: Option<String>) -> (r: String)
    ensures
        r@ == match stripped {
            Some(s) => s@,
            None => path@,
        },
{
    match stripped {
        Some(s) => s,
        None => path.to_owned(),
    }
}

/// `path` relative to `base` when it lies under it, else `path` unchanged.
pub fn make_relative(path: &str, base: &str) -> (r: String)
    ensures
        r@ == match path_strip_prefix(path@, base@) {
            Some(s) => s,
            None => path@,
        },
{
    relative_or_whole(path, strip_path_prefix(path, base))
}

} // verus!
