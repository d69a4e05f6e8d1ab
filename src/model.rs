//! A model of what commands do to the compositor's workspaces, and the laws the
//! planners obey in it.
use crate::command::CommandView;
use crate::config::{Config, MonitorGroup};
use crate::destination::target_index;
use crate::placement::{
    all_slots, has_name, next_focus, show_commands, swap_commands, swap_group, swap_plan, swap_slot,
    switch_plan, ws_name,
};
use crate::reconcile::container_moves;
use crate::snapshot::{focused, WorkspaceInfo};
use crate::workspace_id::{decode, is_group_name, lemma_decode_encode};
use vstd::prelude::*;

verus! {

/// Renames `from` to `to` in a map from workspace names to their containers. The
/// compositor refuses a rename whose source is missing or whose target exists.
pub open spec fn rename_in(st: Map<Seq<char>, Set<int>>, from: Seq<char>, to: Seq<char>) -> Map<Seq<char>, Set<int>> {
    if st.dom().contains(from) && !st.dom().contains(to) {
        st.remove(from).insert(to, st[from])
    } else {
        st
    }
}

/// The effect of the renames among `cs`, in order.
pub open spec fn apply_renames(st: Map<Seq<char>, Set<int>>, cs: Seq<CommandView>) -> Map<Seq<char>, Set<int>>
    decreases cs.len(),
{
    if cs.len() == 0 {
        st
    } else {
        let before = apply_renames(st, cs.drop_last());
        match cs.last() {
            CommandView::Rename(f, t) => rename_in(before, f, t),
            _ => before,
        }
    }
}

/// Every rename among `cs` finds its source and a free target when it runs.
pub open spec fn renames_clean(st: Map<Seq<char>, Set<int>>, cs: Seq<CommandView>) -> bool
    decreases cs.len(),
{
    if cs.len() == 0 {
        true
    } else {
        let before = apply_renames(st, cs.drop_last());
        renames_clean(st, cs.drop_last()) && match cs.last() {
            CommandView::Rename(f, t) => before.dom().contains(f) && !before.dom().contains(t),
            _ => true,
        }
    }
}

/// `st` holds exactly the workspaces of the snapshot.
pub open spec fn names_match(st: Map<Seq<char>, Set<int>>, ws: Seq<WorkspaceInfo>) -> bool {
    forall|x: Seq<char>| #[trigger] st.dom().contains(x) == has_name(ws, x)
}

/// Appending a command applies its rename after the others.
proof fn lemma_apply_push(st: Map<Seq<char>, Set<int>>, cs: Seq<CommandView>, c: CommandView)
    ensures
        apply_renames(st, cs.push(c)) == match c {
            CommandView::Rename(f, t) => rename_in(apply_renames(st, cs), f, t),
            _ => apply_renames(st, cs),
        },
        renames_clean(st, cs.push(c)) == (renames_clean(st, cs) && match c {
            CommandView::Rename(f, t) => apply_renames(st, cs).dom().contains(f)
                && !apply_renames(st, cs).dom().contains(t),
            _ => true,
        }),
{
    assert(cs.push(c).drop_last() =~= cs);
}

/// The workspaces that exist, and the output each one is assigned to.
pub struct Layout {
    pub shown: Set<Seq<char>>,
    pub assigned: Map<Seq<char>, Seq<char>>,
}

/// The effect of `cs` on the layout: assigning records the output, showing a
/// workspace creates it.
pub open spec fn apply_layout(l: Layout, cs: Seq<CommandView>) -> Layout
    decreases cs.len(),
{
    if cs.len() == 0 {
        l
    } else {
        let before = apply_layout(l, cs.drop_last());
        match cs.last() {
            CommandView::AssignOutput(w, o) => Layout {
                assigned: before.assigned.insert(w, o),
                ..before
            },
            CommandView::Focus(w) => Layout { shown: before.shown.insert(w), ..before },
            _ => before,
        }
    }
}

/// The layout already shows workspace group `index` of `g` on every slot.
pub open spec fn shows_index(l: Layout, g: MonitorGroup, index: int) -> bool {
    forall|s: int|
        0 <= s < g.slots().len() ==> l.shown.contains(#[trigger] ws_name(g.name@, s, index))
            && l.assigned.contains_key(ws_name(g.name@, s, index)) && l.assigned[ws_name(
            g.name@,
            s,
            index,
        )] == g.slots()[s]
}

proof fn lemma_show_keeps(l: Layout, g: MonitorGroup, index: int, n: int)
    requires
        0 <= n <= g.slots().len(),
        shows_index(l, g, index),
    ensures
        apply_layout(l, show_commands(g, index, all_slots(), n)) == l,
    decreases n,
{
    if n > 0 {
        lemma_show_keeps(l, g, index, n - 1);
        let w = ws_name(g.name@, n - 1, index);
        let cs = show_commands(g, index, all_slots(), n);
        let prev = show_commands(g, index, all_slots(), n - 1);
        let mid = prev.push(CommandView::AssignOutput(w, g.slots()[n - 1]));
        assert(cs =~= mid.push(CommandView::Focus(w)));
        assert(cs.drop_last() =~= mid);
        assert(mid.drop_last() =~= prev);
        assert(shows_index(l, g, index) ==> l.shown.contains(w));
        assert(l.assigned.insert(w, g.slots()[n - 1]) =~= l.assigned);
        assert(apply_layout(l, mid) == l);
        assert(l.shown.insert(w) =~= l.shown);
    }
}

/// Switching a monitor group to the workspace group it already shows, with a
/// focus target that exists, leaves the workspaces and their assignments as they were.
pub proof fn lemma_switch_to_current(l: Layout, g: MonitorGroup, index: int, focus: Seq<char>)
    requires
        shows_index(l, g, index),
        l.shown.contains(focus),
    ensures
        apply_layout(
            l,
            show_commands(g, index, all_slots(), g.slots().len() as int) + seq![
                CommandView::Focus(focus),
            ],
        ) == l,
{
    let cs = show_commands(g, index, all_slots(), g.slots().len() as int);
    lemma_show_keeps(l, g, index, g.slots().len() as int);
    assert((cs + seq![CommandView::Focus(focus)]).drop_last() =~= cs);
    assert(l.shown.insert(focus) =~= l.shown);
}

/// Switching a monitor group to the workspace group it already shows leaves the
/// workspaces and their assignments unchanged, where the workspace that ends
/// focused exists already.
pub proof fn lemma_switch_idempotent(l: Layout, config: Config, ws: Seq<WorkspaceInfo>, group: Seq<char>, destination: Seq<char>)
    requires
        switch_plan(config, ws, group, destination) is Ok,
        shows_index(l, config.group(group)->0, target_index(ws, group, destination)->0),
        l.shown.contains(
            next_focus(
                config,
                group,
                config.group(group)->0,
                target_index(ws, group, destination)->0,
                focused(ws)->0,
            ),
        ),
    ensures
        apply_layout(l, switch_plan(config, ws, group, destination)->Ok_0) == l,
{
    let g = config.group(group)->0;
    let t = target_index(ws, group, destination)->0;
    lemma_switch_to_current(l, g, t, next_focus(config, group, g, t, focused(ws)->0));
}

/// Moves container `c` to workspace `t`, creating `t` if needed.
pub open spec fn move_container(st: Map<Seq<char>, Set<int>>, c: int, t: Seq<char>) -> Map<Seq<char>, Set<int>> {
    Map::new(
        |n: Seq<char>| st.dom().contains(n) || n == t,
        |n: Seq<char>|
            if n == t {
                (if st.dom().contains(t) {
                    st[t]
                } else {
                    Set::empty()
                }).insert(c)
            } else {
                st[n].remove(c)
            },
    )
}

/// The effect of the container moves among `cs`, in order.
pub open spec fn apply_moves(st: Map<Seq<char>, Set<int>>, cs: Seq<CommandView>) -> Map<Seq<char>, Set<int>>
    decreases cs.len(),
{
    if cs.len() == 0 {
        st
    } else {
        let before = apply_moves(st, cs.drop_last());
        match cs.last() {
            CommandView::MoveContainerById(c, t) => move_container(before, c, t),
            _ => before,
        }
    }
}

/// The containers among `cs`.
pub open spec fn id_set(cs: Seq<i64>) -> Set<int> {
    Set::new(|c: int| exists|i: int| 0 <= i < cs.len() && (#[trigger] cs[i]) as int == c)
}

proof fn lemma_moves_prefix(st: Map<Seq<char>, Set<int>>, cs: Seq<i64>, from: Seq<char>, t: Seq<char>, j: int)
    requires
        0 <= j <= cs.len(),
        st.dom().contains(from),
        st.dom().contains(t),
        from != t,
    ensures
        apply_moves(st, container_moves(cs.take(j), t)).dom() == st.dom(),
        apply_moves(st, container_moves(cs.take(j), t))[t] == st[t] + id_set(cs.take(j)),
        apply_moves(st, container_moves(cs.take(j), t))[from] == st[from] - id_set(cs.take(j)),
    decreases j,
{
    let r = apply_moves(st, container_moves(cs.take(j), t));
    if j == 0 {
        assert(container_moves(cs.take(0), t) =~= Seq::<CommandView>::empty());
        assert(id_set(cs.take(0)) =~= Set::<int>::empty());
        assert(st[t] + Set::<int>::empty() =~= st[t]);
        assert(st[from] - Set::<int>::empty() =~= st[from]);
    } else {
        lemma_moves_prefix(st, cs, from, t, j - 1);
        let prev = apply_moves(st, container_moves(cs.take(j - 1), t));
        let c = cs[j - 1] as int;
        assert(container_moves(cs.take(j), t).drop_last() =~= container_moves(cs.take(j - 1), t));
        assert(container_moves(cs.take(j), t).last() == CommandView::MoveContainerById(c, t));
        assert(r == move_container(prev, c, t));
        assert(id_set(cs.take(j)) =~= id_set(cs.take(j - 1)).insert(c)) by {
            assert forall|x: int| id_set(cs.take(j)).contains(x) implies id_set(cs.take(j - 1)).insert(c).contains(x) by {
                let full = cs.take(j);
                let i = choose|i: int| 0 <= i < full.len() && (#[trigger] full[i]) as int == x;
                if i < j - 1 {
                    assert(cs.take(j - 1)[i] == cs.take(j)[i]);
                }
            }
            assert forall|x: int| id_set(cs.take(j - 1)).insert(c).contains(x) implies id_set(cs.take(j)).contains(x) by {
                if x == c {
                    assert(cs.take(j)[j - 1] as int == c);
                } else {
                    let pre = cs.take(j - 1);
                    let i = choose|i: int| 0 <= i < pre.len() && (#[trigger] pre[i]) as int == x;
                    assert(cs.take(j)[i] == cs.take(j - 1)[i]);
                }
            }
        }
        assert(r.dom() =~= st.dom());
        assert(r[t] =~= st[t] + id_set(cs.take(j)));
        assert(r[from] =~= st[from] - id_set(cs.take(j)));
    }
}

/// Merging workspace `from`, which holds the containers `cs`, into workspace `t`:
/// `t` ends up holding its own containers and those of `from`, and `from` is left
/// empty. No workspace appears or disappears.
pub proof fn lemma_merge_unites(st: Map<Seq<char>, Set<int>>, cs: Seq<i64>, from: Seq<char>, t: Seq<char>)
    requires
        st.dom().contains(from),
        st.dom().contains(t),
        from != t,
        st[from] == id_set(cs),
    ensures
        apply_moves(st, container_moves(cs, t)).dom() == st.dom(),
        apply_moves(st, container_moves(cs, t))[t] == st[t] + st[from],
        apply_moves(st, container_moves(cs, t))[from] == Set::<int>::empty(),
{
    lemma_moves_prefix(st, cs, from, t, cs.len() as int);
    assert(cs.take(cs.len() as int) =~= cs);
    assert(st[from] - id_set(cs) =~= Set::<int>::empty());
}

/// The effect of swapping `from` and `to`, according to which of them exist.
pub open spec fn swapped(st: Map<Seq<char>, Set<int>>, from: Seq<char>, to: Seq<char>) -> Map<Seq<char>, Set<int>> {
    if st.dom().contains(from) && st.dom().contains(to) {
        st.insert(from, st[to]).insert(to, st[from])
    } else if st.dom().contains(to) {
        st.remove(to).insert(from, st[to])
    } else if st.dom().contains(from) {
        st.remove(from).insert(to, st[from])
    } else {
        st
    }
}

proof fn lemma_apply_concat(st: Map<Seq<char>, Set<int>>, a: Seq<CommandView>, b: Seq<CommandView>)
    ensures
        apply_renames(st, a + b) == apply_renames(apply_renames(st, a), b),
        renames_clean(st, a + b) == (renames_clean(st, a) && renames_clean(apply_renames(st, a), b)),
    decreases b.len(),
{
    if b.len() == 0 {
        assert(a + b =~= a);
    } else {
        lemma_apply_concat(st, a, b.drop_last());
        assert((a + b).drop_last() =~= a + b.drop_last());
        assert((a + b).last() == b.last());
    }
}

proof fn lemma_swap_slot_general(st: Map<Seq<char>, Set<int>>, ws: Seq<WorkspaceInfo>, from: Seq<char>, to: Seq<char>, temp: Seq<char>)
    requires
        st.dom().contains(from) == has_name(ws, from),
        st.dom().contains(to) == has_name(ws, to),
        !st.dom().contains(temp),
        from != to,
    ensures
        renames_clean(st, swap_slot(ws, from, to, temp)),
        apply_renames(st, swap_slot(ws, from, to, temp)) == swapped(st, from, to),
{
    let cs = swap_slot(ws, from, to, temp);
    let c0 = Seq::<CommandView>::empty();
    if st.dom().contains(from) && st.dom().contains(to) {
        let c1 = c0.push(CommandView::Rename(to, temp));
        let c2 = c1.push(CommandView::Rename(from, to));
        let c3 = c2.push(CommandView::Rename(temp, from));
        assert(cs =~= c3);
        lemma_apply_push(st, c0, CommandView::Rename(to, temp));
        lemma_apply_push(st, c1, CommandView::Rename(from, to));
        lemma_apply_push(st, c2, CommandView::Rename(temp, from));
        let s3 = rename_in(rename_in(rename_in(st, to, temp), from, to), temp, from);
        assert(s3 =~= swapped(st, from, to));
    } else if st.dom().contains(to) {
        assert(cs =~= c0.push(CommandView::Rename(to, from)));
        lemma_apply_push(st, c0, CommandView::Rename(to, from));
    } else if st.dom().contains(from) {
        assert(cs =~= c0.push(CommandView::Rename(from, to)));
        lemma_apply_push(st, c0, CommandView::Rename(from, to));
    } else {
        assert(cs =~= c0);
    }
}

/// What a swap of `from` and `to` leaves: where both existed they trade
/// containers; where only one existed it now has the other's name; where neither
/// existed neither does.
pub open spec fn swap_outcome(st: Map<Seq<char>, Set<int>>, r: Map<Seq<char>, Set<int>>, from: Seq<char>, to: Seq<char>) -> bool {
    if st.dom().contains(from) && st.dom().contains(to) {
        r.dom().contains(from) && r.dom().contains(to) && r[from] == st[to] && r[to] == st[from]
    } else if st.dom().contains(to) {
        r.dom().contains(from) && !r.dom().contains(to) && r[from] == st[to]
    } else if st.dom().contains(from) {
        r.dom().contains(to) && !r.dom().contains(from) && r[to] == st[from]
    } else {
        !r.dom().contains(from) && !r.dom().contains(to)
    }
}

/// The name of the workspace of slot `s` in workspace group `i` of `g`.
#[verifier::opaque]
pub open spec fn slot_name(g: MonitorGroup, s: int, i: int) -> Seq<char> {
    ws_name(g.name@, s, i)
}

proof fn lemma_names_differ(g: MonitorGroup, s1: int, i1: int, s2: int, i2: int)
    requires
        is_group_name(g.name@),
        0 <= s1 <= usize::MAX,
        0 <= s2 <= usize::MAX,
        i32::MIN <= i1 <= i32::MAX,
        i32::MIN <= i2 <= i32::MAX,
        s1 != s2 || i1 != i2,
    ensures
        slot_name(g, s1, i1) != slot_name(g, s2, i2),
        decode(slot_name(g, s1, i1)) is Some,
{
    reveal(slot_name);
    lemma_decode_encode(g.name@, s1 as usize, i1 as i32);
    lemma_decode_encode(g.name@, s2 as usize, i2 as i32);
}

/// `x` is none of the names that slots below `n` trade.
pub open spec fn untouched(g: MonitorGroup, fi: int, ti: int, n: int, x: Seq<char>) -> bool {
    forall|s: int| 0 <= s < n ==> x != #[trigger] slot_name(g, s, fi) && x != slot_name(g, s, ti)
}

proof fn lemma_untouched_weaken(g: MonitorGroup, fi: int, ti: int, n: int, x: Seq<char>)
    requires
        n > 0,
        untouched(g, fi, ti, n, x),
    ensures
        untouched(g, fi, ti, n - 1, x),
        x != slot_name(g, n - 1, fi),
        x != slot_name(g, n - 1, ti),
{
    assert(x != slot_name(g, n - 1, fi) && x != slot_name(g, n - 1, ti));
}

proof fn lemma_swap_slots(st: Map<Seq<char>, Set<int>>, ws: Seq<WorkspaceInfo>, g: MonitorGroup, active: Seq<Seq<char>>, fi: int, ti: int, temp: Seq<char>, n: int)
    requires
        names_match(st, ws),
        !st.dom().contains(temp),
        decode(temp) is None,
        is_group_name(g.name@),
        g.slots().len() <= usize::MAX,
        0 <= n <= g.slots().len(),
        i32::MIN <= fi <= i32::MAX,
        i32::MIN <= ti <= i32::MAX,
        fi != ti,
    ensures
        renames_clean(st, swap_commands(ws, g, active, fi, ti, temp, n)),
        !apply_renames(st, swap_commands(ws, g, active, fi, ti, temp, n)).dom().contains(temp),
        forall|x: Seq<char>|
            untouched(g, fi, ti, n, x) ==> (
            #[trigger] apply_renames(st, swap_commands(ws, g, active, fi, ti, temp, n)).dom().contains(x)
                == st.dom().contains(x) && (st.dom().contains(x) ==> apply_renames(
                st,
                swap_commands(ws, g, active, fi, ti, temp, n),
            )[x] == st[x])),
        forall|s: int|
            0 <= s < n && active.contains(g.slots()[s]) ==> swap_outcome(
                st,
                apply_renames(st, swap_commands(ws, g, active, fi, ti, temp, n)),
                #[trigger] slot_name(g, s, fi),
                slot_name(g, s, ti),
            ),
    decreases n,
{
    if n == 0 {
        assert(swap_commands(ws, g, active, fi, ti, temp, 0) =~= Seq::<CommandView>::empty());
        assert(apply_renames(st, swap_commands(ws, g, active, fi, ti, temp, 0)) == st);
    }
    if n > 0 {
        lemma_swap_slots(st, ws, g, active, fi, ti, temp, n - 1);
        let prev_cs = swap_commands(ws, g, active, fi, ti, temp, n - 1);
        let r0 = apply_renames(st, prev_cs);
        let f = slot_name(g, n - 1, fi);
        let t = slot_name(g, n - 1, ti);
        lemma_names_differ(g, n - 1, fi, n - 1, ti);
        lemma_names_differ(g, n - 1, ti, n - 1, fi);
        assert(f != temp && t != temp);
        assert forall|s: int| 0 <= s < n - 1 implies f != #[trigger] slot_name(g, s, fi) && f != slot_name(g, s, ti) by {
            lemma_names_differ(g, n - 1, fi, s, fi);
            lemma_names_differ(g, n - 1, fi, s, ti);
        }
        assert forall|s: int| 0 <= s < n - 1 implies t != #[trigger] slot_name(g, s, fi) && t != slot_name(g, s, ti) by {
            lemma_names_differ(g, n - 1, ti, s, fi);
            lemma_names_differ(g, n - 1, ti, s, ti);
        }
        assert(untouched(g, fi, ti, n - 1, f));
        assert(untouched(g, fi, ti, n - 1, t));
        assert(r0.dom().contains(f) == st.dom().contains(f));
        assert(r0.dom().contains(t) == st.dom().contains(t));
        assert(st.dom().contains(f) ==> r0[f] == st[f]);
        assert(st.dom().contains(t) ==> r0[t] == st[t]);
        if active.contains(g.slots()[n - 1]) {
            let slot_cs = swap_slot(ws, f, t, temp);
            assert(swap_commands(ws, g, active, fi, ti, temp, n) == prev_cs + slot_cs) by {
                reveal(slot_name);
            }
            lemma_apply_concat(st, prev_cs, slot_cs);
            lemma_swap_slot_general(r0, ws, f, t, temp);
            let r1 = swapped(r0, f, t);
            assert(apply_renames(st, swap_commands(ws, g, active, fi, ti, temp, n)) == r1);
            assert forall|x: Seq<char>|
                untouched(g, fi, ti, n, x) implies (
                #[trigger] apply_renames(st, swap_commands(ws, g, active, fi, ti, temp, n)).dom().contains(x) == st.dom().contains(x) && (st.dom().contains(x) ==> apply_renames(st, swap_commands(ws, g, active, fi, ti, temp, n))[x] == st[x])) by {
                lemma_untouched_weaken(g, fi, ti, n, x);
            }
            assert forall|s: int| 0 <= s < n && active.contains(g.slots()[s]) implies swap_outcome(
                st,
                r1,
                #[trigger] slot_name(g, s, fi),
                slot_name(g, s, ti),
            ) by {
                if s < n - 1 {
                    let fs = slot_name(g, s, fi);
                    let ts = slot_name(g, s, ti);
                    lemma_names_differ(g, n - 1, fi, s, fi);
                    lemma_names_differ(g, n - 1, fi, s, ti);
                    lemma_names_differ(g, n - 1, ti, s, fi);
                    lemma_names_differ(g, n - 1, ti, s, ti);
                    assert(swap_outcome(st, r0, fs, ts));
                    assert(r1.dom().contains(fs) == r0.dom().contains(fs));
                    assert(r1.dom().contains(ts) == r0.dom().contains(ts));
                    assert(r0.dom().contains(fs) ==> r1[fs] == r0[fs]);
                    assert(r0.dom().contains(ts) ==> r1[ts] == r0[ts]);
                } else {
                    assert(s == n - 1);
                }
            }
        } else {
            assert(swap_commands(ws, g, active, fi, ti, temp, n) == prev_cs);
            assert(apply_renames(st, swap_commands(ws, g, active, fi, ti, temp, n)) == r0);
            assert forall|x: Seq<char>|
                untouched(g, fi, ti, n, x) implies (
                #[trigger] apply_renames(st, swap_commands(ws, g, active, fi, ti, temp, n)).dom().contains(x) == st.dom().contains(x) && (st.dom().contains(x) ==> apply_renames(st, swap_commands(ws, g, active, fi, ti, temp, n))[x] == st[x])) by {
                lemma_untouched_weaken(g, fi, ti, n, x);
                assert(r0.dom().contains(x) == st.dom().contains(x));
            }
        }
    }
}

/// Swap-Group, on every active slot of its group: where both workspace groups had
/// a workspace on the slot they trade containers, where only one had it takes the
/// other name, and no rename meets a missing source or a taken name (the
/// temporary name being no workspace's name and no managed name). Every other
/// workspace keeps its name and containers.
pub proof fn lemma_swap_group(st: Map<Seq<char>, Set<int>>, config: Config, ws: Seq<WorkspaceInfo>, active: Seq<Seq<char>>, from_index: i32, to: Seq<char>, group_override: Option<Seq<char>>, temp: Seq<char>)
    requires
        names_match(st, ws),
        !has_name(ws, temp),
        decode(temp) is None,
        swap_plan(config, ws, active, from_index as int, to, group_override, temp) is Ok,
        is_group_name(swap_group(config, group_override)->Ok_0.name@),
        swap_group(config, group_override)->Ok_0.slots().len() <= usize::MAX,
        target_index(ws, swap_group(config, group_override)->Ok_0.name@, to)->0 != from_index as int,
    ensures
        ({
            let g = swap_group(config, group_override)->Ok_0;
            let ti = target_index(ws, g.name@, to)->0;
            let cs = swap_plan(config, ws, active, from_index as int, to, group_override, temp)->Ok_0;
            &&& renames_clean(st, cs)
            &&& forall|s: int|
                0 <= s < g.slots().len() && active.contains(g.slots()[s]) ==> swap_outcome(
                    st,
                    apply_renames(st, cs),
                    #[trigger] slot_name(g, s, from_index as int),
                    slot_name(g, s, ti),
                )
            &&& forall|x: Seq<char>|
                untouched(g, from_index as int, ti, g.slots().len() as int, x) ==> (#[trigger] apply_renames(st, cs).dom().contains(x)
                    == st.dom().contains(x) && (st.dom().contains(x) ==> apply_renames(st, cs)[x]
                    == st[x]))
        }),
{
    let g = swap_group(config, group_override)->Ok_0;
    let ti = target_index(ws, g.name@, to)->0;
    assert(!st.dom().contains(temp));
    assert(swap_plan(config, ws, active, from_index as int, to, group_override, temp)->Ok_0 == swap_commands(
        ws,
        g,
        active,
        from_index as int,
        ti,
        temp,
        g.slots().len() as int,
    ));
    lemma_swap_slots(st, ws, g, active, from_index as int, ti, temp, g.slots().len() as int);
}

} // verus!
