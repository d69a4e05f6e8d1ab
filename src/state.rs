//! The grouped, focus-annotated summary of the workspaces, and its textual
//! renderings.
use crate::reconcile::{is_managed_by, member_id};
use crate::snapshot::{find_focused_workspace, focused, WorkspaceInfo};
use crate::text::{contains_str, push_signed_decimal, signed_decimal, str_eq, strings};
use crate::workspace_id::{decode, WorkspaceId};
use itertools::Itertools;
use vstd::prelude::*;
use vstd::string::{StrSliceExecFns, StringExecFns};

verus! {

/// The workspace groups of one monitor group.
#[derive(Debug, Clone)]
pub struct GroupState {
    pub name: String,
    /// Workspace group indices in ascending order, each with whether it is visible.
    pub indices: Vec<(i32, bool)>,
    /// Whether the focused workspace belongs to this monitor group.
    pub focused: bool,
}

/// Managed workspaces by monitor group, and the unmanaged ones with their focus.
#[derive(Debug, Clone)]
pub struct WorkspacesState {
    pub managed: Vec<GroupState>,
    pub unmanaged: Vec<(String, bool)>,
}

/// The rendering profiles.
#[derive(Debug, Clone, Copy, PartialEq, Eq, Structural)]
pub enum Profile {
    /// Plain text, marks with `*`.
    Plain,
    /// Pango markup, for a status bar module.
    Rich,
}

/// `items` separated by `sep`.
pub open spec fn join(items: Seq<Seq<char>>, sep: Seq<char>) -> Seq<char>
    decreases items.len(),
{
    if items.len() == 0 {
        Seq::empty()
    } else if items.len() == 1 {
        items[0]
    } else {
        join(items.drop_last(), sep) + sep + items.last()
    }
}

/// A workspace name or index, emphasised when it has focus.
pub open spec fn emphasis(p: Profile, s: Seq<char>, on: bool) -> Seq<char> {
    if !on {
        s
    } else {
        match p {
            Profile::Plain => "*"@ + s + "*"@,
            Profile::Rich => "<u><b>"@ + s + "</b></u>"@,
        }
    }
}

/// A monitor group name, marked when it holds the focus.
pub open spec fn label(p: Profile, s: Seq<char>, on: bool) -> Seq<char> {
    if !on {
        s
    } else {
        match p {
            Profile::Plain => "*"@ + s + "*"@,
            Profile::Rich => "<u>"@ + s + "</u>"@,
        }
    }
}

pub open spec fn unmanaged_items(p: Profile, u: Seq<(String, bool)>) -> Seq<Seq<char>> {
    u.map_values(|e: (String, bool)| emphasis(p, e.0@, e.1))
}

pub open spec fn index_items(p: Profile, ix: Seq<(i32, bool)>) -> Seq<Seq<char>> {
    ix.map_values(|e: (i32, bool)| emphasis(p, signed_decimal(e.0 as int), e.1))
}

pub open spec fn group_text(p: Profile, g: GroupState) -> Seq<char> {
    label(p, g.name@, g.focused) + ": "@ + join(index_items(p, g.indices@), ", "@)
}

pub open spec fn group_items(p: Profile, gs: Seq<GroupState>) -> Seq<Seq<char>> {
    gs.map_values(|g: GroupState| group_text(p, g))
}

/// The rendering of a summary.
pub open spec fn render_state(p: Profile, st: WorkspacesState) -> Seq<char> {
    let un = join(unmanaged_items(p, st.unmanaged@), ", "@);
    let groups = join(group_items(p, st.managed@), " | "@);
    match p {
        Profile::Plain => (if un.len() == 0 {
            Seq::empty()
        } else {
            "Unmanaged: "@ + un + " | "@
        }) + groups,
        Profile::Rich => (if un.len() == 0 {
            Seq::empty()
        } else {
            "("@ + un + ") | "@
        }) + "[ "@ + groups + " ]"@,
    }
}

fn push_emphasis(out: &mut String, p: Profile, s: &str, on: bool)
    ensures
        final(out)@ == old(out)@ + emphasis(p, s@, on),
{
    if !on {
        out.append(s);
    } else {
        match p {
            Profile::Plain => {
                out.append("*");
                out.append(s);
                out.append("*");
            },
            Profile::Rich => {
                out.append("<u><b>");
                out.append(s);
                out.append("</b></u>");
            },
        }
    }
    assert(final(out)@ =~= old(out)@ + emphasis(p, s@, on));
}

fn push_label(out: &mut String, p: Profile, s: &str, on: bool)
    ensures
        final(out)@ == old(out)@ + label(p, s@, on),
{
    if !on {
        out.append(s);
    } else {
        match p {
            Profile::Plain => {
                out.append("*");
                out.append(s);
                out.append("*");
            },
            Profile::Rich => {
                out.append("<u>");
                out.append(s);
                out.append("</u>");
            },
        }
    }
    assert(final(out)@ =~= old(out)@ + label(p, s@, on));
}

proof fn lemma_join_push(items: Seq<Seq<char>>, sep: Seq<char>, x: Seq<char>)
    ensures
        join(items.push(x), sep) == if items.len() == 0 {
            x
        } else {
            join(items, sep) + sep + x
        },
{
    assert(items.push(x).drop_last() =~= items);
}

fn unmanaged_text(p: Profile, u: &Vec<(String, bool)>) -> (r: String)
    ensures
        r@ == join(unmanaged_items(p, u@), ", "@),
{
    let mut out = String::new();
    let mut i: usize = 0;
    while i < u.len()
        invariant
            0 <= i <= u.len(),
            out@ == join(unmanaged_items(p, u@).take(i as int), ", "@),
        decreases u.len() - i,
    {
        if i > 0 {
            out.append(", ");
        }
        push_emphasis(&mut out, p, u[i].0.as_str(), u[i].1);
        proof {
            let items = unmanaged_items(p, u@);
            assert(items.take(i + 1) =~= items.take(i as int).push(items[i as int]));
            lemma_join_push(items.take(i as int), ", "@, items[i as int]);
        }
        i += 1;
    }
    assert(unmanaged_items(p, u@).take(i as int) =~= unmanaged_items(p, u@));
    out
}

fn push_group(out: &mut String, p: Profile, g: &GroupState)
    ensures
        final(out)@ == old(out)@ + group_text(p, *g),
{
    let ghost start = out@;
    push_label(out, p, g.name.as_str(), g.focused);
    out.append(": ");
    let ghost head = out@;
    let mut i: usize = 0;
    while i < g.indices.len()
        invariant
            0 <= i <= g.indices.len(),
            out@ == head + join(index_items(p, g.indices@).take(i as int), ", "@),
        decreases g.indices.len() - i,
    {
        let ghost before = out@;
        if i > 0 {
            out.append(", ");
        }
        let mut num = String::new();
        push_signed_decimal(&mut num, g.indices[i].0);
        push_emphasis(out, p, num.as_str(), g.indices[i].1);
        proof {
            let items = index_items(p, g.indices@);
            assert(items.take(i + 1) =~= items.take(i as int).push(items[i as int]));
            lemma_join_push(items.take(i as int), ", "@, items[i as int]);
            assert(out@ =~= head + join(items.take(i + 1), ", "@));
        }
        i += 1;
    }
    assert(index_items(p, g.indices@).take(i as int) =~= index_items(p, g.indices@));
    assert(out@ =~= start + group_text(p, *g));
}

/// Renders a summary in the given profile.
pub fn format_state(state: &WorkspacesState, profile: Profile) -> (r: String)
    ensures
        r@ == render_state(profile, *state),
{
    let un = unmanaged_text(profile, &state.unmanaged);
    let mut groups = String::new();
    let mut i: usize = 0;
    while i < state.managed.len()
        invariant
            0 <= i <= state.managed.len(),
            groups@ == join(group_items(profile, state.managed@).take(i as int), " | "@),
        decreases state.managed.len() - i,
    {
        if i > 0 {
            groups.append(" | ");
        }
        push_group(&mut groups, profile, &state.managed[i]);
        proof {
            let items = group_items(profile, state.managed@);
            assert(items.take(i + 1) =~= items.take(i as int).push(items[i as int]));
            lemma_join_push(items.take(i as int), " | "@, items[i as int]);
        }
        i += 1;
    }
    assert(group_items(profile, state.managed@).take(i as int) =~= group_items(profile, state.managed@));
    let mut out = String::new();
    match profile {
        Profile::Plain => {
            if un.unicode_len() > 0 {
                out.append("Unmanaged: ");
                out.append(un.as_str());
                out.append(" | ");
            }
            out.append(groups.as_str());
        },
        Profile::Rich => {
            if un.unicode_len() > 0 {
                out.append("(");
                out.append(un.as_str());
                out.append(") | ");
            }
            out.append("[ ");
            out.append(groups.as_str());
            out.append(" ]");
        },
    }
    assert(out@ =~= render_state(profile, *state));
    out
}

/// Lexicographic order of character sequences.
pub open spec fn lex_le(a: Seq<char>, b: Seq<char>) -> bool
    decreases a.len(),
{
    if a.len() == 0 {
        true
    } else if b.len() == 0 {
        false
    } else if a[0] != b[0] {
        a[0] < b[0]
    } else {
        lex_le(a.skip(1), b.skip(1))
    }
}

/// `p` maps the positions `0..n` one to one onto themselves.
pub open spec fn is_permutation(p: Seq<int>, n: int) -> bool {
    &&& p.len() == n
    &&& forall|i: int| 0 <= i < n ==> 0 <= #[trigger] p[i] < n
    &&& forall|i: int, j: int| 0 <= i < j < n ==> #[trigger] p[i] != #[trigger] p[j]
}

/// Relies on itertools' `sorted_by_key`: a stable sort of the groups by name,
/// where `String`s order lexicographically (by UTF-8 bytes, which is the order
/// of their characters).
#[verifier::external_body]
fn sort_groups_by_name(v: Vec<GroupState>) -> (r: Vec<GroupState>)
    ensures
        r@.len() == v@.len(),
        forall|x: GroupState| r@.contains(x) <==> v@.contains(x),
        exists|p: Seq<int>| is_permutation(p, v@.len() as int) && forall|i: int| 0 <= i < p.len() ==> r@[i] == v@[#[trigger] p[i]],
        forall|i: int, j: int| 0 <= i < j < r@.len() ==> lex_le(#[trigger] r@[i].name@, #[trigger] r@[j].name@),
{
    v.into_iter().sorted_by_key(|g| g.name.clone()).collect()
}

/// Relies on itertools' `sorted_by_key`: a stable sort of the entries by index.
#[verifier::external_body]
fn sort_by_index(v: Vec<(i32, bool)>) -> (r: Vec<(i32, bool)>)
    ensures
        r@.len() == v@.len(),
        forall|x: (i32, bool)| r@.contains(x) <==> v@.contains(x),
        exists|p: Seq<int>| is_permutation(p, v@.len() as int) && forall|i: int| 0 <= i < p.len() ==> r@[i] == v@[#[trigger] p[i]],
        forall|i: int, j: int| 0 <= i < j < r@.len() ==> (#[trigger] r@[i]).0 <= (#[trigger] r@[j]).0,
{
    v.into_iter().sorted_by_key(|e| e.0).collect()
}

/// The unmanaged workspaces among the first `n`, with their focus.
pub open spec fn unmanaged_of(ws: Seq<WorkspaceInfo>, n: int) -> Seq<(Seq<char>, bool)>
    decreases n,
{
    if n <= 0 {
        Seq::empty()
    } else if decode(ws[n - 1].name@) is None {
        unmanaged_of(ws, n - 1).push((ws[n - 1].name@, ws[n - 1].focused))
    } else {
        unmanaged_of(ws, n - 1)
    }
}

pub open spec fn pairs(v: Seq<(String, bool)>) -> Seq<(Seq<char>, bool)> {
    v.map_values(|e: (String, bool)| (e.0@, e.1))
}

/// Whether the focused workspace is a managed workspace of `group`.
pub open spec fn holds_focus(ws: Seq<WorkspaceInfo>, group: Seq<char>) -> bool {
    focused(ws) is Some && is_managed_by(focused(ws)->0, group)
}

/// Position of the first managed workspace of `group` with index `index` at or
/// after `i`, or `ws.len()`.
pub open spec fn first_pos(ws: Seq<WorkspaceInfo>, group: Seq<char>, index: int, i: int) -> int
    decreases ws.len() - i,
{
    if i < 0 || i >= ws.len() {
        ws.len() as int
    } else if is_managed_by(ws[i], group) && member_id(ws[i]).index == index {
        i
    } else {
        first_pos(ws, group, index, i + 1)
    }
}

/// Entry `e` is the index of a managed workspace of `group`, with the visibility
/// of the first such workspace in query order.
pub open spec fn has_entry(ws: Seq<WorkspaceInfo>, group: Seq<char>, e: (i32, bool)) -> bool {
    let p = first_pos(ws, group, e.0 as int, 0);
    0 <= p < ws.len() && ws[p].visible == e.1
}

proof fn lemma_first_pos(ws: Seq<WorkspaceInfo>, group: Seq<char>, index: int, i: int, j: int)
    requires
        0 <= i <= j < ws.len(),
        is_managed_by(ws[j], group) && member_id(ws[j]).index == index,
        forall|k: int| i <= k < j ==> !(is_managed_by(#[trigger] ws[k], group) && member_id(ws[k]).index == index),
    ensures
        first_pos(ws, group, index, i) == j,
    decreases j - i,
{
    if i < j {
        lemma_first_pos(ws, group, index, i + 1, j);
    }
}

fn has_index(v: &Vec<(i32, bool)>, x: i32) -> (r: bool)
    ensures
        r == exists|j: int| 0 <= j < v@.len() && (#[trigger] v@[j]).0 == x,
{
    let mut k: usize = 0;
    while k < v.len()
        invariant
            0 <= k <= v.len(),
            forall|j: int| 0 <= j < k ==> (#[trigger] v@[j]).0 != x,
        decreases v.len() - k,
    {
        if v[k].0 == x {
            return true;
        }
        k += 1;
    }
    false
}

/// What the summary says of monitor group `g`: its indices strictly ascend, each
/// is that of a workspace of the group with the visibility of the first such
/// workspace, every workspace of the group has its index listed, and the focus
/// flag tells whether the group holds focus.
#[verifier::opaque]
pub open spec fn group_ok(ws: Seq<WorkspaceInfo>, g: GroupState) -> bool {
    &&& g.focused == holds_focus(ws, g.name@)
    &&& forall|a: int, b: int| 0 <= a < b < g.indices@.len() ==> (#[trigger] g.indices@[a]).0 < (#[trigger] g.indices@[b]).0
    &&& forall|a: int| 0 <= a < g.indices@.len() ==> has_entry(ws, g.name@, #[trigger] g.indices@[a])
    &&& forall|q: int| 0 <= q < ws.len() && is_managed_by(#[trigger] ws[q], g.name@) ==> exists|a: int|
        0 <= a < g.indices@.len() && g.indices@[a].0 as int == member_id(ws[q]).index
}

#[verifier::rlimit(60)]
fn make_group(workspaces: &Vec<WorkspaceInfo>, name: String, focus_group: &Option<String>) -> (r: GroupState)
    requires
        focus_is(workspaces@, *focus_group),
    ensures
        r.name@ == name@,
        group_ok(workspaces@, r),
{
    reveal(focus_is);
    let collected = collect_indices(workspaces, name.as_str());
    let indices = sort_by_index(collected);
    let is_focused = match focus_group {
        Some(f) => str_eq(f.as_str(), name.as_str()),
        None => false,
    };
    let r = GroupState { name, indices, focused: is_focused };
    assert forall|q: int| 0 <= q < workspaces@.len() && is_managed_by(#[trigger] workspaces@[q], r.name@) implies exists|a: int|
        0 <= a < r.indices@.len() && r.indices@[a].0 as int == member_id(workspaces@[q]).index by {
        let k = choose|k: int| 0 <= k < collected@.len() && collected@[k].0 as int == member_id(workspaces@[q]).index;
        assert(collected@.contains(collected@[k]));
        assert(r.indices@.contains(collected@[k]));
        let a = choose|a: int| 0 <= a < r.indices@.len() && r.indices@[a] == collected@[k];
        assert(r.indices@[a].0 as int == member_id(workspaces@[q]).index);
    }
    assert(r.focused == holds_focus(workspaces@, r.name@));
    assert forall|a: int, b: int| 0 <= a < b < r.indices@.len() implies (#[trigger] r.indices@[a]).0 < (#[trigger] r.indices@[b]).0 by {
        let p = choose|p: Seq<int>| is_permutation(p, collected@.len() as int) && forall|i: int| 0 <= i < p.len() ==> r.indices@[i] == collected@[#[trigger] p[i]];
        assert(r.indices@[a] == collected@[p[a]]);
        assert(r.indices@[b] == collected@[p[b]]);
        assert(p[a] != p[b]);
        if p[a] < p[b] {
            assert(collected@[p[a]].0 != collected@[p[b]].0);
        } else {
            assert(collected@[p[b]].0 != collected@[p[a]].0);
        }
    }
    assert forall|a: int| 0 <= a < r.indices@.len() implies has_entry(workspaces@, r.name@, #[trigger] r.indices@[a]) by {
        let e = r.indices@[a];
        assert(r.indices@.contains(e));
        assert(collected@.contains(e));
        let k = choose|k: int| 0 <= k < collected@.len() && collected@[k] == e;
        assert(has_entry(workspaces@, name@, collected@[k]));
    }
    assert(group_ok(workspaces@, r)) by {
        reveal(group_ok);
    }
    r
}

/// `f` names the monitor group that holds the focus, if any does.
#[verifier::opaque]
pub open spec fn focus_is(ws: Seq<WorkspaceInfo>, f: Option<String>) -> bool {
    match f {
        Some(f) => holds_focus(ws, f@) && forall|g: Seq<char>| holds_focus(ws, g) ==> g == f@,
        None => forall|g: Seq<char>| !holds_focus(ws, g),
    }
}

/// Some managed workspace belongs to monitor group `g`.
pub open spec fn is_group_of(ws: Seq<WorkspaceInfo>, g: Seq<char>) -> bool {
    exists|q: int| 0 <= q < ws.len() && is_managed_by(#[trigger] ws[q], g)
}

/// The monitor group names of the managed workspaces, without repetition.
fn collect_group_names(workspaces: &Vec<WorkspaceInfo>) -> (r: Vec<String>)
    ensures
        forall|g: Seq<char>| #[trigger] strings(r@).contains(g) ==> is_group_of(workspaces@, g),
        forall|q: int| 0 <= q < workspaces@.len() && decode(#[trigger] workspaces@[q].name@) is Some ==> strings(r@).contains(member_id(workspaces@[q]).group),
        forall|a: int, b: int| 0 <= a < b < r@.len() ==> (#[trigger] r@[a])@ != (#[trigger] r@[b])@,
{
    let mut names: Vec<String> = Vec::new();
    let mut i: usize = 0;
    while i < workspaces.len()
        invariant
            0 <= i <= workspaces.len(),
            forall|g: Seq<char>| #[trigger] strings(names@).contains(g) ==> is_group_of(workspaces@, g),
            forall|q: int| 0 <= q < i && decode(#[trigger] workspaces@[q].name@) is Some ==> strings(names@).contains(member_id(workspaces@[q]).group),
            forall|a: int, b: int| 0 <= a < b < names@.len() ==> (#[trigger] names@[a])@ != (#[trigger] names@[b])@,
        decreases workspaces.len() - i,
    {
        match WorkspaceId::parse_safe(workspaces[i].name.as_str()) {
            Some(id) => {
                let g = id.get_monitor_group_name();
                if !contains_str(&names, g) {
                    let ghost before = strings(names@);
                    names.push(String::from_str(g));
                    assert(strings(names@) =~= before.push(g@));
                    assert(is_managed_by(workspaces@[i as int], g@));
                    assert(is_group_of(workspaces@, g@));
                    assert forall|x: Seq<char>| #[trigger] strings(names@).contains(x) implies is_group_of(workspaces@, x) by {
                        let j = choose|j: int| 0 <= j < strings(names@).len() && strings(names@)[j] == x;
                        if j < before.len() {
                            assert(before[j] == x);
                            assert(before.contains(x));
                        }
                    }
                    assert forall|q: int| 0 <= q < i && decode(#[trigger] workspaces@[q].name@) is Some implies strings(names@).contains(member_id(workspaces@[q]).group) by {
                        let x = member_id(workspaces@[q]).group;
                        assert(before.contains(x));
                        let j = choose|j: int| 0 <= j < before.len() && before[j] == x;
                        assert(strings(names@)[j] == x);
                    }
                    assert(strings(names@)[before.len() as int] == g@);
                    assert(strings(names@).contains(g@));
                    assert forall|a: int, b: int| 0 <= a < b < names@.len() implies (#[trigger] names@[a])@ != (#[trigger] names@[b])@ by {
                        assert(strings(names@)[a] == names@[a]@);
                        assert(strings(names@)[b] == names@[b]@);
                        if b == before.len() {
                            assert(before[a] == names@[a]@);
                            if names@[a]@ == g@ {
                                assert(before.contains(g@));
                            }
                        }
                    }
                }
            },
            None => {},
        }
        i += 1;
    }
    names
}

/// The distinct indices of the managed workspaces of `group`, each with the
/// visibility of its first workspace.
fn collect_indices(workspaces: &Vec<WorkspaceInfo>, group: &str) -> (r: Vec<(i32, bool)>)
    ensures
        forall|k: int| 0 <= k < r@.len() ==> has_entry(workspaces@, group@, #[trigger] r@[k]),
        forall|q: int| 0 <= q < workspaces@.len() && is_managed_by(#[trigger] workspaces@[q], group@) ==> exists|k: int|
            0 <= k < r@.len() && r@[k].0 as int == member_id(workspaces@[q]).index,
        forall|a: int, b: int| 0 <= a < b < r@.len() ==> (#[trigger] r@[a]).0 != (#[trigger] r@[b]).0,
{
    let mut out: Vec<(i32, bool)> = Vec::new();
    let mut i: usize = 0;
    while i < workspaces.len()
        invariant
            0 <= i <= workspaces.len(),
            forall|k: int| 0 <= k < out@.len() ==> has_entry(workspaces@, group@, #[trigger] out@[k]),
            forall|q: int| 0 <= q < i && is_managed_by(#[trigger] workspaces@[q], group@) ==> exists|k: int|
                0 <= k < out@.len() && out@[k].0 as int == member_id(workspaces@[q]).index,
            forall|a: int, b: int| 0 <= a < b < out@.len() ==> (#[trigger] out@[a]).0 != (#[trigger] out@[b]).0,
        decreases workspaces.len() - i,
    {
        let w = &workspaces[i];
        match WorkspaceId::parse_safe(w.name.as_str()) {
            Some(id) => {
                if str_eq(id.get_monitor_group_name(), group) {
                    let x = id.get_index();
                    let found = has_index(&out, x);
                    if !found {
                        let ghost before = out@;
                        proof {
                            assert forall|k: int| 0 <= k < i implies !(is_managed_by(#[trigger] workspaces@[k], group@) && member_id(workspaces@[k]).index == x as int) by {
                                if is_managed_by(workspaces@[k], group@) && member_id(workspaces@[k]).index == x as int {
                                    let k0 = choose|k0: int| 0 <= k0 < before.len() && before[k0].0 as int == member_id(workspaces@[k]).index;
                                    assert(before[k0].0 == x);
                                }
                            }
                            assert(is_managed_by(workspaces@[i as int], group@));
                            lemma_first_pos(workspaces@, group@, x as int, 0, i as int);
                        }
                        out.push((x, w.visible));
                        assert(has_entry(workspaces@, group@, (x, w.visible)));
                        assert forall|a: int, b: int| 0 <= a < b < out@.len() implies (#[trigger] out@[a]).0 != (#[trigger] out@[b]).0 by {
                            if b < before.len() {
                                assert(out@[a] == before[a] && out@[b] == before[b]);
                            } else {
                                assert(out@[a] == before[a]);
                            }
                        }
                        assert forall|k: int| 0 <= k < out@.len() implies has_entry(workspaces@, group@, #[trigger] out@[k]) by {
                            if k < before.len() {
                                assert(out@[k] == before[k]);
                            }
                        }
                        assert forall|q: int| 0 <= q <= i && is_managed_by(#[trigger] workspaces@[q], group@) implies exists|k: int|
                            0 <= k < out@.len() && out@[k].0 as int == member_id(workspaces@[q]).index by {
                            if q < i {
                                let k0 = choose|k: int| 0 <= k < before.len() && before[k].0 as int == member_id(workspaces@[q]).index;
                                assert(out@[k0] == before[k0]);
                            } else {
                                assert(out@[before.len() as int].0 == x);
                            }
                        }
                    }
                }
            },
            None => {},
        }
        i += 1;
    }
    out
}

/// The unmanaged workspaces, in order, with their focus.
fn collect_unmanaged(workspaces: &Vec<WorkspaceInfo>) -> (r: Vec<(String, bool)>)
    ensures
        pairs(r@) == unmanaged_of(workspaces@, workspaces@.len() as int),
{
    let mut unmanaged: Vec<(String, bool)> = Vec::new();
    let mut i: usize = 0;
    while i < workspaces.len()
        invariant
            0 <= i <= workspaces.len(),
            pairs(unmanaged@) == unmanaged_of(workspaces@, i as int),
        decreases workspaces.len() - i,
    {
        let w = &workspaces[i];
        if WorkspaceId::parse_safe(w.name.as_str()).is_none() {
            unmanaged.push((w.name.clone(), w.focused));
        }
        assert(pairs(unmanaged@) =~= unmanaged_of(workspaces@, i + 1));
        i += 1;
    }
    unmanaged
}

/// The monitor group of the focused workspace, if it is managed.
fn focus_group_of(workspaces: &Vec<WorkspaceInfo>) -> (r: Option<String>)
    ensures
        focus_is(workspaces@, r),
{
    reveal(focus_is);
    match find_focused_workspace(workspaces) {
        Some(p) => match WorkspaceId::parse_safe(workspaces[p].name.as_str()) {
            Some(id) => Some(String::from_str(id.get_monitor_group_name())),
            None => None,
        },
        None => None,
    }
}

/// Summarises the workspaces: the unmanaged ones in order with their focus, and
/// each monitor group with managed workspaces once, strictly ascending by name,
/// with its workspace group indices strictly ascending (each with the visibility
/// of its first workspace) and whether it holds the focus.
pub fn get_state(workspaces: &Vec<WorkspaceInfo>) -> (r: WorkspacesState)
    ensures
        pairs(r.unmanaged@) == unmanaged_of(workspaces@, workspaces@.len() as int),
        forall|i: int, j: int| 0 <= i < j < r.managed@.len() ==> lex_le(#[trigger] r.managed@[i].name@, #[trigger] r.managed@[j].name@)
            && r.managed@[i].name@ != r.managed@[j].name@,
        forall|k: int| 0 <= k < r.managed@.len() ==> group_ok(workspaces@, #[trigger] r.managed@[k]),
        forall|k: int| 0 <= k < r.managed@.len() ==> is_group_of(workspaces@, (#[trigger] r.managed@[k]).name@),
        forall|q: int| 0 <= q < workspaces@.len() && decode(#[trigger] workspaces@[q].name@) is Some ==> exists|k: int|
            0 <= k < r.managed@.len() && r.managed@[k].name@ == member_id(workspaces@[q]).group,
{
    let unmanaged = collect_unmanaged(workspaces);
    let focus_group = focus_group_of(workspaces);
    let names = collect_group_names(workspaces);
    let mut groups: Vec<GroupState> = Vec::new();
    let mut k: usize = 0;
    while k < names.len()
        invariant
            0 <= k <= names.len(),
            groups@.len() == k,
            focus_is(workspaces@, focus_group),
            forall|j: int| 0 <= j < k ==> (#[trigger] groups@[j]).name@ == names@[j]@,
            forall|j: int| 0 <= j < k ==> group_ok(workspaces@, #[trigger] groups@[j]),
        decreases names.len() - k,
    {
        let g = make_group(workspaces, names[k].clone(), &focus_group);
        let ghost before = groups@;
        groups.push(g);
        assert forall|j: int| 0 <= j <= k implies (#[trigger] groups@[j]).name@ == names@[j]@ && group_ok(workspaces@, groups@[j]) by {
            if j < k {
                assert(groups@[j] == before[j]);
            }
        }
        k += 1;
    }
    let managed = sort_groups_by_name(groups);
    assert forall|i: int, j: int| 0 <= i < j < managed@.len() implies managed@[i].name@ != managed@[j].name@ by {
        let p = choose|p: Seq<int>| is_permutation(p, groups@.len() as int) && forall|i: int| 0 <= i < p.len() ==> managed@[i] == groups@[#[trigger] p[i]];
        assert(managed@[i] == groups@[p[i]]);
        assert(managed@[j] == groups@[p[j]]);
        assert(p[i] != p[j]);
        if p[i] < p[j] {
            assert(names@[p[i]]@ != names@[p[j]]@);
        } else {
            assert(names@[p[j]]@ != names@[p[i]]@);
        }
    }
    assert forall|k: int| 0 <= k < managed@.len() implies group_ok(workspaces@, #[trigger] managed@[k]) && is_group_of(workspaces@, managed@[k].name@) by {
        assert(managed@.contains(managed@[k]));
        assert(groups@.contains(managed@[k]));
        let j = choose|j: int| 0 <= j < groups@.len() && groups@[j] == managed@[k];
        assert(group_ok(workspaces@, groups@[j]));
        assert(strings(names@)[j] == names@[j]@);
        assert(strings(names@).contains(names@[j]@));
    }
    assert forall|q: int| 0 <= q < workspaces@.len() && decode(#[trigger] workspaces@[q].name@) is Some implies exists|k: int|
        0 <= k < managed@.len() && managed@[k].name@ == member_id(workspaces@[q]).group by {
        let g = member_id(workspaces@[q]).group;
        assert(strings(names@).contains(g));
        let j = choose|j: int| 0 <= j < strings(names@).len() && strings(names@)[j] == g;
        assert(groups@[j].name@ == g);
        assert(groups@.contains(groups@[j]));
        assert(managed@.contains(groups@[j]));
        let k = choose|k: int| 0 <= k < managed@.len() && managed@[k] == groups@[j];
        assert(managed@[k].name@ == g);
    }
    let r = WorkspacesState { managed, unmanaged };
    assert(r.managed@ == managed@);
    r
}

} // verus!
