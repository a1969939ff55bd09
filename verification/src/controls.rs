use vstd::prelude::*;
use crate::cycle::views;
use crate::overlay::{
    is_call, is_volume_overlay, set_mic_volume, set_volume_calls, volume_overlay, OverlayCommand,
    ProcessCall,
};
use crate::pipewire::{get_physical_sink_ids, physical_ids, PwNode};
use crate::text::{
    chars_of, contains, decimal, find, is_space, lead_ws, parse_i32, parse_i32_text, split_words,
    string_of, trail_ws, trim, trim_str, trimmed, words,
};

verus! {

/// `hyprctl dispatch workspace <target>`.
fn hyprctl_workspace(target: &str) -> (r: ProcessCall)
    ensures
        is_call(r, "hyprctl"@, seq!["dispatch"@, "workspace"@, target@]),
{
    let args = vec!["dispatch".to_owned(), "workspace".to_owned(), target.to_owned()];
    assert(views(args@) =~= seq!["dispatch"@, "workspace"@, target@]);
    ProcessCall { program: "hyprctl".to_owned(), args }
}

/// Workspace toggle: switching to the workspace that is already active goes
/// back to the previous one instead. A target that is not an `i32` does
/// nothing.
pub fn workspace_dispatch(target_str: &str, active_id: i32) -> (r: Option<ProcessCall>)
    ensures
        r is Some <==> parse_i32(target_str@) is Some,
        r matches Some(call) ==> if parse_i32(target_str@) == Some(active_id) {
            is_call(call, "hyprctl"@, seq!["dispatch"@, "workspace"@, "previous"@])
        } else {
            is_call(call, "hyprctl"@, seq!["dispatch"@, "workspace"@, target_str@])
        },
{
    let target_id = match parse_i32_text(target_str) {
        Some(i) => i,
        None => return None,
    };
    if target_id == active_id {
        Some(hyprctl_workspace("previous"))
    } else {
        Some(hyprctl_workspace(target_str))
    }
}

/// The recorder's pid as its pid file holds it: the trimmed text read as an `i32`.
pub fn session_pid(content: &str) -> (r: Option<i32>)
    ensures
        r == parse_i32(trimmed(content@)),
{
    parse_i32_text(trim_str(content).as_str())
}

/// Whether a process command line is that of this tool, so that a recycled
/// pid never receives the stop signal.
pub fn owns_session(cmdline: &str) -> (r: bool)
    ensures
        r == contains(cmdline@, "r_multitool"@),
{
    let c = chars_of(cmdline);
    let p = chars_of("r_multitool");
    find(c.as_slice(), p.as_slice()).is_some()
}

/// The release action: which pid to stop, if any, and the call that mutes
/// the microphone. The pid is only signalled when its command line shows it
/// is a recorder of this tool.
pub fn mute_plan(pid_file: &str, cmdline: Option<&str>) -> (r: (Option<i32>, ProcessCall))
    ensures
        r.0 == (match (parse_i32(trimmed(pid_file@)), cmdline) {
            (Some(pid), Some(line)) => if contains(line@, "r_multitool"@) {
                Some(pid)
            } else {
                None
            },
            _ => None,
        }),
        is_call(r.1, "wpctl"@, seq!["set-volume"@, "@DEFAULT_AUDIO_SOURCE@"@, "0.0"@]),
{
    let pid = match (session_pid(pid_file), cmdline) {
        (Some(pid), Some(line)) => if owns_session(line) {
            Some(pid)
        } else {
            None
        },
        _ => None,
    };
    (pid, set_mic_volume("0.0"))
}

/// How a volume argument changes the volume.
#[derive(Debug, Clone, Copy, PartialEq, Eq, Structural)]
pub enum VolumeOp {
    /// `5%+`: raise by the amount.
    Raise,
    /// `5%-`: lower by the amount.
    Lower,
    /// `40%`: set the volume to the amount.
    Exact,
}

/// A volume argument taken apart: the operation and the amount, still as text.
pub struct VolumeArg {
    pub op: VolumeOp,
    pub amount: String,
}

/// The operation a trimmed volume argument names by its last character.
pub open spec fn volume_op(t: Seq<char>) -> VolumeOp {
    if t.len() > 0 && t.last() == '+' {
        VolumeOp::Raise
    } else if t.len() > 0 && t.last() == '-' {
        VolumeOp::Lower
    } else {
        VolumeOp::Exact
    }
}

/// The amount of a volume argument: trimmed, without the trailing operator
/// and then without one trailing `%`.
pub open spec fn volume_amount(arg: Seq<char>) -> Seq<char> {
    let t = trimmed(arg);
    let w = if volume_op(t) is Exact {
        t
    } else {
        t.drop_last()
    };
    if w.len() > 0 && w.last() == '%' {
        w.drop_last()
    } else {
        w
    }
}

/// Splits a volume argument such as `5%+` into its operation and amount.
pub fn parse_volume_arg(arg: &str) -> (r: VolumeArg)
    ensures
        r.op == volume_op(trimmed(arg@)),
        r.amount@ == volume_amount(arg@),
{
    let mut t = trim(chars_of(arg).as_slice());
    let ghost tv = t@;
    let n = t.len();
    let op = if n > 0 && t[n - 1] == '+' {
        VolumeOp::Raise
    } else if n > 0 && t[n - 1] == '-' {
        VolumeOp::Lower
    } else {
        VolumeOp::Exact
    };
    if op != VolumeOp::Exact {
        t.pop();
        assert(t@ =~= tv.drop_last());
    }
    let m = t.len();
    if m > 0 && t[m - 1] == '%' {
        let ghost w = t@;
        t.pop();
        assert(t@ =~= w.drop_last());
    }
    VolumeArg { op, amount: string_of(t.as_slice()) }
}

proof fn lemma_trimmed_unchanged(t: Seq<char>)
    requires
        t.len() > 0,
        !is_space(t[0]),
        !is_space(t.last()),
    ensures
        trimmed(t) == t,
{
    assert(lead_ws(t) == 0);
    assert(trail_ws(t) == 0);
    assert(t.subrange(0, t.len() as int) =~= t);
}

/// How a volume argument is read: one trailing `+` or `-` names the
/// operation and is removed, then one trailing `%` is removed, and nothing
/// else. So `5+` and `5%+` both raise by `5`, `10-` lowers by `10`, and `40%`
/// or `40` sets `40`.
pub proof fn lemma_volume_argument_forms(d: Seq<char>, c: char)
    requires
        d.len() > 0,
        !is_space(d[0]),
    ensures
        c == '+' ==> volume_op(trimmed(d.push(c))) == VolumeOp::Raise,
        c == '-' ==> volume_op(trimmed(d.push(c))) == VolumeOp::Lower,
        (c == '+' || c == '-') ==> volume_amount(d.push(c)) == (if d.last() == '%' {
            d.drop_last()
        } else {
            d
        }),
        !is_space(d.last()) && d.last() != '+' && d.last() != '-' ==> volume_op(trimmed(d))
            == VolumeOp::Exact && volume_amount(d) == (if d.last() == '%' {
            d.drop_last()
        } else {
            d
        }),
{
    let t = d.push(c);
    if c == '+' || c == '-' {
        assert(t[0] == d[0]);
        assert(!is_space(c));
        lemma_trimmed_unchanged(t);
        assert(t.drop_last() =~= d);
    }
    if !is_space(d.last()) && d.last() != '+' && d.last() != '-' {
        lemma_trimmed_unchanged(d);
    }
}

/// The physical sinks whose volume is set, sorted by id; an error when there
/// is none.
pub fn volume_sinks(nodes: &[PwNode]) -> (r: Result<Vec<u32>, String>)
    ensures
        r is Err <==> physical_ids(nodes@).len() == 0,
        r matches Ok(ids) ==> ids@.to_multiset() == physical_ids(nodes@).to_multiset()
            && crate::order::u32s_sorted(ids@),
        r matches Err(e) ==> e@ == "No physical sinks found"@,
{
    let ids = get_physical_sink_ids(nodes);
    if ids.len() == 0 {
        proof {
            physical_ids(nodes@).to_multiset_ensures();
            ids@.to_multiset_ensures();
            if physical_ids(nodes@).len() > 0 {
                assert(physical_ids(nodes@).to_multiset().count(physical_ids(nodes@)[0]) > 0);
            }
        }
        Err("No physical sinks found".to_owned())
    } else {
        proof {
            ids@.to_multiset_ensures();
            physical_ids(nodes@).to_multiset_ensures();
            assert(ids@.to_multiset().count(ids@[0]) > 0);
        }
        Ok(ids)
    }
}

/// Applies a volume: `wpctl set-volume <id> <vol>` for each sink in order,
/// and the volume bars of `bar_height` pixels for the overlay.
pub fn run(ids: &[u32], vol: &str, bar_height: i32) -> (r: (Vec<ProcessCall>, OverlayCommand))
    requires
        0 <= bar_height <= 1080,
    ensures
        r.0@.len() == ids@.len(),
        forall|i: int|
            0 <= i < ids@.len() ==> is_call(
                #[trigger] r.0@[i],
                "wpctl"@,
                seq!["set-volume"@, decimal(ids@[i] as nat), vol@],
            ),
        is_volume_overlay(r.1, bar_height),
{
    (set_volume_calls(ids, vol), volume_overlay(bar_height))
}

/// The word of `wpctl get-volume` output that holds the level: the second
/// one (`Volume: 0.40 [MUTED]`).
pub fn level_word(out: &str) -> (r: Option<String>)
    ensures
        r matches Some(w) ==> words(out@).len() >= 2 && w@ == words(out@)[1],
        r is None <==> words(out@).len() < 2,
{
    let ws = split_words(out);
    proof {
        assert(ws@.map_values(|w: String| w@).len() == ws@.len());
    }
    if ws.len() < 2 {
        None
    } else {
        let w = ws[1].clone();
        proof {
            assert(ws@.map_values(|w: String| w@)[1] == ws@[1]@);
        }
        Some(w)
    }
}

} // verus!
