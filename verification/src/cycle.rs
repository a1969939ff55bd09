use vstd::prelude::*;
use crate::pipewire::{get_physical_sink_names, physical_names, PwNode, VIRTUAL_SINK_TO_CYCLE};
use crate::order::strings_sorted;
use crate::text::{
    before_first, chars_eq, chars_of, contains, has_prefix, is_space, is_whitespace, lines_of,
    piece_after, prefix_before, second_piece, split_lines, starts_with, string_of, trim, trimmed,
    concat,
};

verus! {

/// `->`, which separates the two ports of a link in `pw-link -l` output.
pub open spec fn arrow() -> Seq<char> {
    seq!['-', '>']
}

/// Whether a listing line is indented, i.e. describes a link of the current section.
pub open spec fn is_indented(line: Seq<char>) -> bool {
    line.len() > 0 && is_space(line[0])
}

/// The node that a link line points to: the target port after the first `->`,
/// trimmed, up to its first `:`.
pub open spec fn link_target(line: Seq<char>) -> Seq<char> {
    before_first(trimmed(second_piece(line, arrow())), seq![':'])
}

/// Targets linked from the ports of sections that start with `prefix`, among
/// `targets`, reading `lines` with `section` the heading in force.
pub open spec fn links_from(
    lines: Seq<Seq<char>>,
    section: Seq<char>,
    prefix: Seq<char>,
    targets: Set<Seq<char>>,
) -> Set<Seq<char>>
    decreases lines.len(),
{
    if lines.len() == 0 {
        Set::empty()
    } else {
        let line = lines[0];
        if !is_indented(line) {
            links_from(lines.drop_first(), trimmed(line), prefix, targets)
        } else {
            let rest = links_from(lines.drop_first(), section, prefix, targets);
            if starts_with(section, prefix) && contains(line, arrow()) && targets.contains(
                link_target(line),
            ) {
                rest.insert(link_target(line))
            } else {
                rest
            }
        }
    }
}

/// The nodes among `targets` that the ports of node `source` are linked to,
/// according to the `pw-link -l` listing `listing`.
pub open spec fn active_links(source: Seq<char>, listing: Seq<char>, targets: Seq<String>) -> Set<
    Seq<char>,
> {
    links_from(
        lines_of(listing),
        Seq::empty(),
        source + seq![':'],
        view_set(targets),
    )
}

/// The views of `s`, which hold no string twice.
pub open spec fn distinct_views(s: Seq<String>) -> bool {
    forall|i: int, j: int| 0 <= i < s.len() && 0 <= j < s.len() && i != j ==> s[i]@ != s[j]@
}

/// The characters of each string of `s`.
pub open spec fn views(s: Seq<String>) -> Seq<Seq<char>> {
    s.map_values(|t: String| t@)
}

/// The set of the views of `s`.
pub open spec fn view_set(s: Seq<String>) -> Set<Seq<char>> {
    views(s).to_set()
}

/// Whether some string of `v` has the characters `c`.
pub fn holds_view(v: &[String], c: &[char]) -> (r: bool)
    ensures
        r == view_set(v@).contains(c@),
{
    let mut i: usize = 0;
    while i < v.len()
        invariant
            i <= v@.len(),
            forall|j: int| 0 <= j < i ==> v@[j]@ != c@,
        decreases v@.len() - i,
    {
        let cv = chars_of(v[i].as_str());
        if chars_eq(cv.as_slice(), c) {
            assert(views(v@)[i as int] == c@);
            return true;
        }
        i += 1;
    }
    proof {
        if view_set(v@).contains(c@) {
            let k = choose|k: int| 0 <= k < v@.len() && #[trigger] views(v@)[k] == c@;
            assert(v@[k]@ == c@);
        }
    }
    false
}

proof fn lemma_view_set_push(s: Seq<String>, x: String)
    ensures
        view_set(s.push(x)) == view_set(s).insert(x@),
{
    assert(views(s.push(x)) =~= views(s).push(x@));
    views(s).lemma_push_to_set_commute(x@);
}

/// The target node of an indented listing line, when it holds `->`.
fn line_target(line: &[char]) -> (r: Option<Vec<char>>)
    ensures
        match r {
            Some(t) => contains(line@, arrow()) && t@ == link_target(line@),
            None => !contains(line@, arrow()),
        },
{
    let arrow_chars: Vec<char> = vec!['-', '>'];
    assert(arrow_chars@ =~= arrow());
    match piece_after(line, arrow_chars.as_slice()) {
        Some(part) => {
            let port = trim(part.as_slice());
            let colon: Vec<char> = vec![':'];
            assert(colon@ =~= seq![':']);
            Some(prefix_before(port.as_slice(), colon.as_slice()))
        },
        None => None,
    }
}

/// The nodes among `valid_targets` that node `source` is linked to, each once,
/// read from the output of `pw-link -l`.
pub fn get_active_links(source: &str, listing: &str, valid_targets: &[String]) -> (r: Vec<String>)
    ensures
        distinct_views(r@),
        view_set(r@) == active_links(source@, listing@, valid_targets@),
{
    let listing_chars = chars_of(listing);
    let lines = split_lines(listing_chars.as_slice());
    let src_chars = chars_of(source);
    let mut prefix = src_chars.clone();
    prefix.push(':');
    let ghost all = lines@.map_values(|l: Vec<char>| l@);
    let ghost targets = view_set(valid_targets@);
    let mut active: Vec<String> = Vec::new();
    let mut section: Vec<char> = Vec::new();
    let mut k: usize = 0;
    assert(all.skip(0) =~= all);
    assert(view_set(active@) =~= Set::empty());
    while k < lines.len()
        invariant
            k <= lines@.len(),
            all == lines@.map_values(|l: Vec<char>| l@),
            all == lines_of(listing@),
            prefix@ == source@ + seq![':'],
            targets == view_set(valid_targets@),
            distinct_views(active@),
            view_set(active@) + links_from(all.skip(k as int), section@, prefix@, targets)
                == links_from(all, Seq::empty(), prefix@, targets),
        decreases lines@.len() - k,
    {
        let ghost rest = all.skip(k as int);
        assert(rest[0] == lines@[k as int]@);
        assert(rest.drop_first() =~= all.skip(k + 1));
        let line = &lines[k];
        let indented = line.len() > 0 && is_whitespace(line[0]);
        if !indented {
            section = trim(line.as_slice());
        } else if has_prefix(section.as_slice(), prefix.as_slice()) {
            match line_target(line.as_slice()) {
                Some(t) => {
                    if holds_view(valid_targets, t.as_slice()) && !holds_view(
                        active.as_slice(),
                        t.as_slice(),
                    ) {
                        let ghost old_active = active@;
                        active.push(string_of(t.as_slice()));
                        proof {
                            lemma_view_set_push(old_active, active@.last());
                            assert forall|i: int, j: int|
                                0 <= i < active@.len() && 0 <= j < active@.len() && i != j
                                    implies active@[i]@ != active@[j]@ by {
                                if j == active@.len() - 1 {
                                    assert(views(old_active)[i] == active@[i]@);
                                } else if i == active@.len() - 1 {
                                    assert(views(old_active)[j] == active@[j]@);
                                }
                            }
                        }
                    }
                },
                None => {},
            }
        }
        k += 1;
        assert(view_set(active@) + links_from(all.skip(k as int), section@, prefix@, targets)
            =~= links_from(all, Seq::empty(), prefix@, targets));
    }
    active
}

} // verus!

verus! {

/// Index of the first string of `s` equal to `x` (`s.len()` when there is none).
pub open spec fn first_index(s: Seq<Seq<char>>, x: Seq<char>) -> nat
    decreases s.len(),
{
    if s.len() == 0 || s[0] == x {
        0
    } else {
        1 + first_index(s.drop_first(), x)
    }
}

proof fn lemma_first_index_at(s: Seq<Seq<char>>, x: Seq<char>, k: int)
    requires
        0 <= k <= s.len(),
        forall|i: int| 0 <= i < k ==> #[trigger] s[i] != x,
        k < s.len() ==> s[k] == x,
    ensures
        first_index(s, x) == k,
    decreases s.len(),
{
    if k > 0 {
        assert forall|i: int| 0 <= i < k - 1 implies #[trigger] s.drop_first()[i] != x by {
            assert(s.drop_first()[i] == s[i + 1]);
        }
        lemma_first_index_at(s.drop_first(), x, k - 1);
    }
}

/// Position of the first string of `v` with the characters of `x`.
pub fn position_of(v: &[String], x: &str) -> (r: usize)
    ensures
        r == first_index(views(v@), x@),
{
    let xc = chars_of(x);
    let mut i: usize = 0;
    while i < v.len()
        invariant
            i <= v@.len(),
            xc@ == x@,
            forall|j: int| 0 <= j < i ==> #[trigger] views(v@)[j] != x@,
        decreases v@.len() - i,
    {
        let c = chars_of(v[i].as_str());
        if chars_eq(c.as_slice(), xc.as_slice()) {
            proof {
                lemma_first_index_at(views(v@), x@, i as int);
            }
            return i;
        }
        i += 1;
    }
    proof {
        lemma_first_index_at(views(v@), x@, i as int);
    }
    i
}

/// Whether `next` is the index that follows the last of the `active` sinks in
/// `sinks` (wrapping round), or the first index when no sink is active.
pub open spec fn follows_last_active(sinks: Seq<Seq<char>>, active: Set<Seq<char>>, next: int) -> bool {
    if active.is_empty() {
        next == 0
    } else {
        exists|a: Seq<char>|
            #![trigger active.contains(a)]
            active.contains(a) && next == (first_index(sinks, a) + 1) as int % (sinks.len() as int) && (
            forall|b: Seq<char>| #[trigger]
                active.contains(b) ==> first_index(sinks, b) <= first_index(sinks, a))
    }
}

/// The index of the sink to switch to: the one after the last active sink.
pub fn next_sink_index(sinks: &[String], active: &[String]) -> (r: usize)
    requires
        sinks@.len() > 0,
        view_set(active@).subset_of(view_set(sinks@)),
    ensures
        r < sinks@.len(),
        follows_last_active(views(sinks@), view_set(active@), r as int),
{
    if active.len() == 0 {
        assert(view_set(active@) =~= Set::empty());
        return 0;
    }
    let ghost vs = views(sinks@);
    let mut best: usize = position_of(sinks, active[0].as_str());
    let ghost mut best_name = active@[0]@;
    assert(views(active@)[0] == active@[0]@);
    let mut i: usize = 1;
    while i < active.len()
        invariant
            1 <= i <= active@.len(),
            vs == views(sinks@),
            view_set(active@).contains(best_name),
            best == first_index(vs, best_name),
            forall|j: int| 0 <= j < i ==> first_index(vs, #[trigger] active@[j]@) <= best,
        decreases active@.len() - i,
    {
        let p = position_of(sinks, active[i].as_str());
        if p > best {
            best = p;
            proof {
                best_name = active@[i as int]@;
                assert(views(active@)[i as int] == active@[i as int]@);
            }
        }
        i += 1;
    }
    proof {
        assert(view_set(sinks@).contains(best_name));
        let k = choose|k: int| 0 <= k < vs.len() && #[trigger] vs[k] == best_name;
        lemma_first_index_bound(vs, best_name, k);
        assert forall|b: Seq<char>| #[trigger]
            view_set(active@).contains(b) implies first_index(vs, b) <= first_index(
            vs,
            best_name,
        ) by {
            let j = choose|j: int| 0 <= j < active@.len() && #[trigger] views(active@)[j] == b;
            assert(active@[j]@ == b);
        }
        assert(vs.len() == sinks@.len());
    }
    assert(best < sinks.len());
    (best + 1) % sinks.len()
}

proof fn lemma_first_index_bound(s: Seq<Seq<char>>, x: Seq<char>, k: int)
    requires
        0 <= k < s.len(),
        s[k] == x,
    ensures
        first_index(s, x) <= k,
    decreases s.len(),
{
    if k > 0 && s[0] != x {
        assert(s.drop_first()[k - 1] == x);
        lemma_first_index_bound(s.drop_first(), x, k - 1);
    }
}

} // verus!

verus! {

proof fn lemma_links_within_targets(
    lines: Seq<Seq<char>>,
    section: Seq<char>,
    prefix: Seq<char>,
    targets: Set<Seq<char>>,
)
    ensures
        links_from(lines, section, prefix, targets).subset_of(targets),
    decreases lines.len(),
{
    if lines.len() > 0 {
        if !is_indented(lines[0]) {
            lemma_links_within_targets(lines.drop_first(), trimmed(lines[0]), prefix, targets);
        } else {
            lemma_links_within_targets(lines.drop_first(), section, prefix, targets);
        }
    }
}

/// With no sink linked, cycling starts at the first sink.
pub proof fn lemma_cycle_starts_first(sinks: Seq<Seq<char>>, next: int)
    requires
        follows_last_active(sinks, Set::empty(), next),
    ensures
        next == 0,
{
}

/// With exactly one of distinct sinks linked, cycling moves on to the sink
/// after it, the last one wrapping round to the first.
pub proof fn lemma_cycle_advances(sinks: Seq<Seq<char>>, i: int, next: int)
    requires
        0 <= i < sinks.len(),
        forall|a: int, b: int| 0 <= a < b < sinks.len() ==> sinks[a] != sinks[b],
        follows_last_active(sinks, set![sinks[i]], next),
    ensures
        next == (i + 1) % (sinks.len() as int),
{
    assert forall|j: int| 0 <= j < i implies #[trigger] sinks[j] != sinks[i] by {}
    lemma_first_index_at(sinks, sinks[i], i);
    assert(set![sinks[i]].contains(sinks[i]));
}

/// After a plan is carried out (its unlinks done, its next sink linked),
/// the next sink is the only one linked.
pub proof fn lemma_plan_leaves_one_link(active: Set<Seq<char>>, unlink: Set<Seq<char>>, next: Seq<char>)
    requires
        unlink == active.remove(next),
    ensures
        active.difference(unlink).insert(next) == set![next],
{
    assert(active.difference(unlink).insert(next) =~= set![next]);
}

/// What moving the virtual sink's output on to the next physical sink takes.
pub struct CyclePlan {
    /// The physical sinks, sorted by name.
    pub sinks: Vec<String>,
    /// Index in `sinks` of the sink to link to.
    pub next: usize,
    /// Sinks currently linked that are to be unlinked.
    pub unlink: Vec<String>,
}

/// Plans one step of cycling the virtual sink through the physical sinks:
/// `nodes` is the `pw-dump` object list and `listing` the output of `pw-link -l`.
/// Gives `None` when there is no physical sink.
pub fn run(nodes: &[PwNode], listing: &str) -> (r: Option<CyclePlan>)
    ensures
        r is None <==> physical_names(nodes@).len() == 0,
        r matches Some(p) ==> {
            let act = active_links(VIRTUAL_SINK_TO_CYCLE@, listing@, p.sinks@);
            &&& strings_sorted(p.sinks@)
            &&& p.sinks@.to_multiset() == physical_names(nodes@).to_multiset()
            &&& p.next < p.sinks@.len()
            &&& follows_last_active(views(p.sinks@), act, p.next as int)
            &&& distinct_views(p.unlink@)
            &&& view_set(p.unlink@) == act.remove(p.sinks@[p.next as int]@)
        },
{
    broadcast use vstd::seq_lib::group_to_multiset_ensures;

    let sinks = get_physical_sink_names(nodes);
    if sinks.len() == 0 {
        assert(physical_names(nodes@).to_multiset().len() == 0);
        return None;
    }
    let active = get_active_links(VIRTUAL_SINK_TO_CYCLE, listing, sinks.as_slice());
    proof {
        lemma_links_within_targets(
            lines_of(listing@),
            Seq::empty(),
            VIRTUAL_SINK_TO_CYCLE@ + seq![':'],
            view_set(sinks@),
        );
    }
    let next = next_sink_index(sinks.as_slice(), active.as_slice());
    let next_chars = chars_of(sinks[next].as_str());
    let mut unlink: Vec<String> = Vec::new();
    let mut i: usize = 0;
    while i < active.len()
        invariant
            i <= active@.len(),
            next < sinks@.len(),
            next_chars@ == sinks@[next as int]@,
            distinct_views(active@),
            distinct_views(unlink@),
            view_set(unlink@) == view_set(active@.take(i as int)).remove(next_chars@),
            forall|k: int| 0 <= k < unlink@.len() ==> view_set(active@.take(i as int)).contains(
                #[trigger] unlink@[k]@,
            ),
        decreases active@.len() - i,
    {
        let ghost old_unlink = unlink@;
        proof {
            assert(active@.take(i + 1) =~= active@.take(i as int).push(active@[i as int]));
            lemma_view_set_push(active@.take(i as int), active@[i as int]);
        }
        let c = chars_of(active[i].as_str());
        if !chars_eq(c.as_slice(), next_chars.as_slice()) {
            unlink.push(active[i].clone());
            proof {
                lemma_view_set_push(old_unlink, active@[i as int]);
                assert forall|a: int, b: int|
                    0 <= a < unlink@.len() && 0 <= b < unlink@.len() && a != b implies unlink@[a]@
                    != unlink@[b]@ by {
                    if b == unlink@.len() - 1 {
                        assert(view_set(active@.take(i as int)).contains(unlink@[a]@));
                        let q = choose|q: int|
                            0 <= q < i && #[trigger] views(active@.take(i as int))[q]
                                == unlink@[a]@;
                        assert(active@[q]@ == unlink@[a]@);
                    } else if a == unlink@.len() - 1 {
                        assert(view_set(active@.take(i as int)).contains(unlink@[b]@));
                        let q = choose|q: int|
                            0 <= q < i && #[trigger] views(active@.take(i as int))[q]
                                == unlink@[b]@;
                        assert(active@[q]@ == unlink@[b]@);
                    }
                }
            }
        }
        i += 1;
        assert(view_set(unlink@) =~= view_set(active@.take(i as int)).remove(next_chars@));
    }
    assert(active@.take(active@.len() as int) =~= active@);
    assert(sinks@.to_multiset().len() == sinks@.len());
    assert(physical_names(nodes@).to_multiset().len() == physical_names(nodes@).len());
    Some(CyclePlan { sinks, next, unlink })
}

/// Arguments of the two `pw-link` calls that link (or, with `unlink`, unlink)
/// the left and right monitor ports of `source` to the playback ports of `sink`.
pub fn link_args(source: &str, sink: &str, unlink: bool) -> (r: (Vec<String>, Vec<String>))
    ensures
        views(r.0@) == (if unlink {
            seq!["-d"@]
        } else {
            Seq::empty()
        }) + seq![source@ + ":monitor_FL"@, sink@ + ":playback_FL"@],
        views(r.1@) == (if unlink {
            seq!["-d"@]
        } else {
            Seq::empty()
        }) + seq![source@ + ":monitor_FR"@, sink@ + ":playback_FR"@],
{
    let mut fl: Vec<String> = Vec::new();
    let mut fr: Vec<String> = Vec::new();
    if unlink {
        fl.push("-d".to_owned());
        fr.push("-d".to_owned());
    }
    fl.push(concat(source, ":monitor_FL"));
    fl.push(concat(sink, ":playback_FL"));
    fr.push(concat(source, ":monitor_FR"));
    fr.push(concat(sink, ":playback_FR"));
    assert(views(fl@) =~= (if unlink {
        seq!["-d"@]
    } else {
        Seq::empty()
    }) + seq![source@ + ":monitor_FL"@, sink@ + ":playback_FL"@]);
    assert(views(fr@) =~= (if unlink {
        seq!["-d"@]
    } else {
        Seq::empty()
    }) + seq![source@ + ":monitor_FR"@, sink@ + ":playback_FR"@]);
    (fl, fr)
}

} // verus!
