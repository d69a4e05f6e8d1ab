//! Reconciliation: after monitors come and go, bring every managed workspace onto
//! the monitor of its slot, or the best monitor still available, without losing a
//! container.
use crate::command::{views, Command, CommandView};
use crate::config::{first_in, lemma_position_from, Config, MonitorGroup};
use crate::error::EngineError;
use crate::snapshot::WorkspaceInfo;
use crate::text::{contains_str, str_eq, strings};
use crate::workspace_id::{decode, encode, is_group_name, lemma_decode_encode, IdView, WorkspaceId};
use vstd::prelude::*;

verus! {

/// Slot given to a workspace placed on a monitor of another group.
pub const FOREIGN_MONITOR_INDEX: usize = 999;

/// The identifier a managed workspace's name decodes to.
pub open spec fn member_id(w: WorkspaceInfo) -> IdView {
    decode(w.name@)->0
}

pub open spec fn is_managed_by(w: WorkspaceInfo, group: Seq<char>) -> bool {
    decode(w.name@) is Some && member_id(w).group == group
}

pub open spec fn is_member(w: WorkspaceInfo, group: Seq<char>, index: int) -> bool {
    is_managed_by(w, group) && member_id(w).index == index
}

/// The workspace group indices of `group` among the first `n` workspaces, in
/// order of first appearance.
pub open spec fn group_keys(ws: Seq<WorkspaceInfo>, group: Seq<char>, n: int) -> Seq<int>
    decreases n,
{
    if n <= 0 {
        Seq::empty()
    } else {
        let ks = group_keys(ws, group, n - 1);
        let w = ws[n - 1];
        if is_managed_by(w, group) && !ks.contains(member_id(w).index) {
            ks.push(member_id(w).index)
        } else {
            ks
        }
    }
}

/// The workspaces of one workspace group among the first `n`, in snapshot order.
pub open spec fn members(ws: Seq<WorkspaceInfo>, group: Seq<char>, index: int, n: int) -> Seq<
    WorkspaceInfo,
>
    decreases n,
{
    if n <= 0 {
        Seq::empty()
    } else if is_member(ws[n - 1], group, index) {
        members(ws, group, index, n - 1).push(ws[n - 1])
    } else {
        members(ws, group, index, n - 1)
    }
}

/// Slot `s` holds an active monitor (its first occurrence in the group).
pub open spec fn is_active_slot(g: MonitorGroup, active: Seq<Seq<char>>, s: int) -> bool {
    0 <= s < g.slots().len() && active.contains(g.slots()[s]) && g.slot_of(g.slots()[s]) == Some(
        s as nat,
    )
}

/// Slot of the active monitor named `output` in the group.
pub open spec fn output_slot(g: MonitorGroup, active: Seq<Seq<char>>, output: Seq<char>) -> Option<
    nat,
> {
    if active.contains(output) {
        g.slot_of(output)
    } else {
        None
    }
}

pub open spec fn slot_taken(ms: Seq<WorkspaceInfo>, s: int) -> bool {
    exists|k: int| 0 <= k < ms.len() && member_id(#[trigger] ms[k]).slot == s
}

/// The active slots below `n` that no workspace of the workspace group names, in order.
pub open spec fn available(g: MonitorGroup, active: Seq<Seq<char>>, ms: Seq<WorkspaceInfo>, n: int) -> Seq<
    nat,
>
    decreases n,
{
    if n <= 0 {
        Seq::empty()
    } else if is_active_slot(g, active, n - 1) && !slot_taken(ms, n - 1) {
        available(g, active, ms, n - 1).push((n - 1) as nat)
    } else {
        available(g, active, ms, n - 1)
    }
}

/// What reconciliation does with one workspace.
pub enum Placement {
    /// It already sits on the monitor of its slot.
    Keep,
    /// It moves to the active monitor of this slot.
    Place(nat),
    /// It moves to a monitor of another group.
    Foreign,
    /// Its containers move to the workspace of this slot.
    Merge(nat),
}

/// The decisions of a pass over a workspace group so far, with the cursor into
/// the available slots and whether the foreign monitor was used.
pub struct Pass {
    pub placements: Seq<Placement>,
    pub cursor: nat,
    pub used_foreign: bool,
}

/// The decision for workspace `w`, given the pass so far.
pub open spec fn step(g: MonitorGroup, active: Seq<Seq<char>>, avail: Seq<nat>, pass: Pass, w: WorkspaceInfo) -> Pass {
    let id = member_id(w);
    if output_slot(g, active, w.output@) == Some(id.slot) {
        Pass { placements: pass.placements.push(Placement::Keep), ..pass }
    } else if is_active_slot(g, active, id.slot as int) {
        Pass { placements: pass.placements.push(Placement::Place(id.slot)), ..pass }
    } else if pass.cursor < avail.len() {
        Pass {
            placements: pass.placements.push(Placement::Place(avail[pass.cursor as int])),
            cursor: pass.cursor + 1,
            used_foreign: pass.used_foreign,
        }
    } else if g.main_slot(active) is None && !pass.used_foreign {
        Pass {
            placements: pass.placements.push(Placement::Foreign),
            cursor: pass.cursor,
            used_foreign: true,
        }
    } else {
        let target = match g.main_slot(active) {
            Some(s) => s,
            None => FOREIGN_MONITOR_INDEX as nat,
        };
        Pass { placements: pass.placements.push(Placement::Merge(target)), ..pass }
    }
}

/// The pass over the workspaces `ms` of one workspace group, in order.
pub open spec fn run(g: MonitorGroup, active: Seq<Seq<char>>, avail: Seq<nat>, ms: Seq<WorkspaceInfo>) -> Pass
    decreases ms.len(),
{
    if ms.len() == 0 {
        Pass { placements: Seq::empty(), cursor: 0, used_foreign: false }
    } else {
        step(g, active, avail, run(g, active, avail, ms.drop_last()), ms.last())
    }
}

/// The pass over a whole workspace group.
pub open spec fn group_pass(g: MonitorGroup, active: Seq<Seq<char>>, ms: Seq<WorkspaceInfo>) -> Pass {
    run(g, active, available(g, active, ms, g.slots().len() as int), ms)
}

/// Commands that move workspace `name` to `monitor` and give it slot `s`.
pub open spec fn relocate(name: Seq<char>, monitor: Seq<char>, s: nat, id: IdView) -> Seq<CommandView> {
    seq![CommandView::MoveWorkspaceToOutput(name, monitor)] + if s != id.slot {
        seq![CommandView::Rename(name, encode(IdView { slot: s, ..id }))]
    } else {
        Seq::empty()
    }
}

/// Commands that move each container of `w` to the workspace of slot `t` of its
/// workspace group.
pub open spec fn merge_commands(w: WorkspaceInfo, t: nat) -> Seq<CommandView> {
    container_moves(w.containers@, encode(IdView { slot: t, ..member_id(w) }))
}

/// Commands that move each of the containers `cs` to workspace `target`.
pub open spec fn container_moves(cs: Seq<i64>, target: Seq<char>) -> Seq<CommandView> {
    cs.map_values(|c: i64| CommandView::MoveContainerById(c as int, target))
}

/// Commands that carry out placement `p` of workspace `w`.
pub open spec fn placement_commands(g: MonitorGroup, foreign: Seq<char>, w: WorkspaceInfo, p: Placement) -> Seq<
    CommandView,
> {
    match p {
        Placement::Keep => Seq::empty(),
        Placement::Place(s) => relocate(w.name@, g.slots()[s as int], s, member_id(w)),
        Placement::Foreign => relocate(w.name@, foreign, FOREIGN_MONITOR_INDEX as nat, member_id(w)),
        Placement::Merge(t) => merge_commands(w, t),
    }
}

/// Commands for the first `n` workspaces of a workspace group.
pub open spec fn pass_commands(g: MonitorGroup, active: Seq<Seq<char>>, foreign: Seq<char>, avail: Seq<nat>, ms: Seq<WorkspaceInfo>, n: int) -> Seq<CommandView>
    decreases n,
{
    if n <= 0 || n > ms.len() {
        Seq::empty()
    } else {
        pass_commands(g, active, foreign, avail, ms, n - 1) + placement_commands(
            g,
            foreign,
            ms[n - 1],
            run(g, active, avail, ms.take(n)).placements[n - 1],
        )
    }
}

/// Commands that reconcile one workspace group.
pub open spec fn workspace_group_commands(g: MonitorGroup, active: Seq<Seq<char>>, foreign: Seq<char>, ms: Seq<WorkspaceInfo>) -> Seq<CommandView> {
    pass_commands(g, active, foreign, available(g, active, ms, g.slots().len() as int), ms, ms.len() as int)
}

/// The first active monitor of the groups from `i` on, taken group by group.
pub open spec fn foreign_from(gs: Seq<MonitorGroup>, active: Seq<Seq<char>>, i: int) -> Option<Seq<char>>
    decreases gs.len() - i,
{
    if i < 0 || i >= gs.len() {
        None
    } else {
        match gs[i].main_slot(active) {
            Some(s) => Some(gs[i].slots()[s as int]),
            None => foreign_from(gs, active, i + 1),
        }
    }
}

/// The monitor used as a last resort: the first active monitor of any group.
pub open spec fn foreign_monitor(config: Config, active: Seq<Seq<char>>) -> Option<Seq<char>> {
    foreign_from(config.groups@, active, 0)
}

pub open spec fn foreign_name(config: Config, active: Seq<Seq<char>>) -> Seq<char> {
    match foreign_monitor(config, active) {
        Some(m) => m,
        None => Seq::empty(),
    }
}

/// Commands that reconcile the workspace groups `keys[..n]` of monitor group `g`.
pub open spec fn monitor_group_commands(config: Config, g: MonitorGroup, active: Seq<Seq<char>>, ws: Seq<WorkspaceInfo>, keys: Seq<int>, n: int) -> Seq<CommandView>
    decreases n,
{
    if n <= 0 || n > keys.len() {
        Seq::empty()
    } else {
        monitor_group_commands(config, g, active, ws, keys, n - 1) + workspace_group_commands(
            g,
            active,
            foreign_name(config, active),
            members(ws, g.name@, keys[n - 1], ws.len() as int),
        )
    }
}

/// Whether one of the workspace groups `keys[..n]` needs the foreign monitor.
pub open spec fn monitor_group_needs_foreign(g: MonitorGroup, active: Seq<Seq<char>>, ws: Seq<WorkspaceInfo>, keys: Seq<int>, n: int) -> bool
    decreases n,
{
    if n <= 0 || n > keys.len() {
        false
    } else {
        monitor_group_needs_foreign(g, active, ws, keys, n - 1) || group_pass(
            g,
            active,
            members(ws, g.name@, keys[n - 1], ws.len() as int),
        ).used_foreign
    }
}

pub open spec fn keys_of(g: MonitorGroup, ws: Seq<WorkspaceInfo>) -> Seq<int> {
    group_keys(ws, g.name@, ws.len() as int)
}

/// Commands that reconcile the first `n` monitor groups.
pub open spec fn reorganize_commands(config: Config, active: Seq<Seq<char>>, ws: Seq<WorkspaceInfo>, n: int) -> Seq<CommandView>
    decreases n,
{
    if n <= 0 || n > config.groups@.len() {
        Seq::empty()
    } else {
        let g = config.groups@[n - 1];
        let keys = keys_of(g, ws);
        reorganize_commands(config, active, ws, n - 1) + monitor_group_commands(
            config,
            g,
            active,
            ws,
            keys,
            keys.len() as int,
        )
    }
}

/// Whether one of the first `n` monitor groups needs the foreign monitor.
pub open spec fn needs_foreign(config: Config, active: Seq<Seq<char>>, ws: Seq<WorkspaceInfo>, n: int) -> bool
    decreases n,
{
    if n <= 0 || n > config.groups@.len() {
        false
    } else {
        let g = config.groups@[n - 1];
        let keys = keys_of(g, ws);
        needs_foreign(config, active, ws, n - 1) || monitor_group_needs_foreign(
            g,
            active,
            ws,
            keys,
            keys.len() as int,
        )
    }
}

/// The workspaces at positions `ps` of the snapshot.
pub open spec fn at(ws: Seq<WorkspaceInfo>, ps: Seq<usize>) -> Seq<WorkspaceInfo> {
    ps.map_values(|p: usize| ws[p as int])
}

pub open spec fn valid_positions(ws: Seq<WorkspaceInfo>, ps: Seq<usize>) -> bool {
    forall|k: int| 0 <= k < ps.len() ==> #[trigger] ps[k] < ws.len()
}

/// Returns the monitor used as a last resort: the first active monitor of any group.
pub fn get_foreign_monitor(config: &Config, active_monitors: &Vec<String>) -> (r: Option<String>)
    ensures
        match foreign_monitor(*config, strings(active_monitors@)) {
            Some(m) => r is Some && r->0@ == m,
            None => r is None,
        },
{
    let ghost act = strings(active_monitors@);
    let mut i: usize = 0;
    while i < config.groups.len()
        invariant
            0 <= i <= config.groups.len(),
            act == strings(active_monitors@),
            foreign_from(config.groups@, act, 0) == foreign_from(config.groups@, act, i as int),
        decreases config.groups.len() - i,
    {
        let g = &config.groups[i];
        assert(g.slots().len() == g.monitors@.len());
        match g.get_main_monitor_index(active_monitors) {
            Ok(s) => {
                return Some(g.monitors[s].clone());
            },
            Err(_) => {},
        }
        i += 1;
    }
    None
}

/// Whether slot `s` of the group holds an active monitor.
fn slot_is_active(group: &MonitorGroup, active_monitors: &Vec<String>, s: usize) -> (r: bool)
    ensures
        r == is_active_slot(*group, strings(active_monitors@), s as int),
{
    assert(group.slots().len() == group.monitors@.len());
    if s >= group.monitors.len() {
        return false;
    }
    let m = group.monitors[s].as_str();
    assert(group.slots()[s as int] == m@);
    if !contains_str(active_monitors, m) {
        return false;
    }
    match group.get_monitor_index(m) {
        Some(k) => k == s,
        None => false,
    }
}

/// Slot of the active monitor named `output` in the group.
fn find_output_slot(group: &MonitorGroup, active_monitors: &Vec<String>, output: &str) -> (r: Option<usize>)
    ensures
        match output_slot(*group, strings(active_monitors@), output@) {
            Some(s) => r is Some && r->0 as nat == s,
            None => r is None,
        },
{
    if contains_str(active_monitors, output) {
        group.get_monitor_index(output)
    } else {
        None
    }
}

/// The identifier of a workspace known to be managed.
fn member_identifier(w: &WorkspaceInfo) -> (r: WorkspaceId)
    requires
        decode(w.name@) is Some,
    ensures
        r@ == member_id(*w),
{
    match WorkspaceId::parse_safe(w.name.as_str()) {
        Some(id) => id,
        None => WorkspaceId::new("", 0, 0),
    }
}

/// The workspace group indices of `group`, in order of first appearance.
fn collect_group_keys(workspaces: &Vec<WorkspaceInfo>, group: &str) -> (r: Vec<i32>)
    ensures
        r@.map_values(|k: i32| k as int) == group_keys(workspaces@, group@, workspaces@.len() as int),
{
    let mut keys: Vec<i32> = Vec::new();
    let mut i: usize = 0;
    while i < workspaces.len()
        invariant
            0 <= i <= workspaces.len(),
            keys@.map_values(|k: i32| k as int) == group_keys(workspaces@, group@, i as int),
        decreases workspaces.len() - i,
    {
        let ghost ks = group_keys(workspaces@, group@, i as int);
        match WorkspaceId::parse_safe(workspaces[i].name.as_str()) {
            Some(id) => {
                if str_eq(id.get_monitor_group_name(), group) {
                    let k = id.get_index();
                    let mut seen = false;
                    let mut j: usize = 0;
                    while j < keys.len()
                        invariant
                            0 <= j <= keys.len(),
                            keys@.map_values(|k: i32| k as int) == ks,
                            seen == exists|q: int| 0 <= q < j && ks[q] == k as int,
                        decreases keys.len() - j,
                    {
                        assert(ks[j as int] == keys@[j as int] as int);
                        if keys[j] == k {
                            seen = true;
                        }
                        j += 1;
                    }
                    assert(seen == ks.contains(k as int));
                    if !seen {
                        keys.push(k);
                    }
                    assert(keys@.map_values(|k: i32| k as int) =~= group_keys(
                        workspaces@,
                        group@,
                        i + 1,
                    ));
                }
            },
            None => {},
        }
        i += 1;
    }
    keys
}

/// Positions of the workspaces of one workspace group, in snapshot order.
fn collect_members(workspaces: &Vec<WorkspaceInfo>, group: &str, index: i32) -> (r: Vec<usize>)
    ensures
        valid_positions(workspaces@, r@),
        at(workspaces@, r@) == members(workspaces@, group@, index as int, workspaces@.len() as int),
{
    let mut ps: Vec<usize> = Vec::new();
    let mut i: usize = 0;
    while i < workspaces.len()
        invariant
            0 <= i <= workspaces.len(),
            valid_positions(workspaces@, ps@),
            at(workspaces@, ps@) == members(workspaces@, group@, index as int, i as int),
        decreases workspaces.len() - i,
    {
        match WorkspaceId::parse_safe(workspaces[i].name.as_str()) {
            Some(id) => {
                if str_eq(id.get_monitor_group_name(), group) && id.get_index() == index {
                    ps.push(i);
                }
            },
            None => {},
        }
        assert(at(workspaces@, ps@) =~= members(workspaces@, group@, index as int, i + 1));
        i += 1;
    }
    ps
}

proof fn lemma_members(ws: Seq<WorkspaceInfo>, group: Seq<char>, index: int, n: int)
    requires
        0 <= n <= ws.len(),
    ensures
        forall|k: int|
            0 <= k < members(ws, group, index, n).len() ==> is_member(
                #[trigger] members(ws, group, index, n)[k],
                group,
                index,
            ),
    decreases n,
{
    if n > 0 {
        lemma_members(ws, group, index, n - 1);
        let prev = members(ws, group, index, n - 1);
        let cur = members(ws, group, index, n);
        assert forall|k: int| 0 <= k < cur.len() implies is_member(#[trigger] cur[k], group, index) by {
            if k < prev.len() {
                assert(cur[k] == prev[k]);
            }
        }
    }
}

proof fn lemma_run_len(g: MonitorGroup, active: Seq<Seq<char>>, avail: Seq<nat>, ms: Seq<WorkspaceInfo>)
    ensures
        run(g, active, avail, ms).placements.len() == ms.len(),
    decreases ms.len(),
{
    if ms.len() > 0 {
        lemma_run_len(g, active, avail, ms.drop_last());
    }
}

/// The active slots of the group that no workspace of the workspace group names.
fn available_slots(group: &MonitorGroup, active_monitors: &Vec<String>, workspaces: &Vec<WorkspaceInfo>, ps: &Vec<usize>) -> (r: Vec<usize>)
    requires
        valid_positions(workspaces@, ps@),
        forall|k: int| 0 <= k < ps@.len() ==> decode(#[trigger] at(workspaces@, ps@)[k].name@) is Some,
    ensures
        r@.map_values(|s: usize| s as nat) == available(
            *group,
            strings(active_monitors@),
            at(workspaces@, ps@),
            group.slots().len() as int,
        ),
        forall|k: int| 0 <= k < r@.len() ==> #[trigger] r@[k] < group.monitors@.len(),
{
    let ghost act = strings(active_monitors@);
    let ghost ms = at(workspaces@, ps@);
    assert(group.slots().len() == group.monitors@.len());
    let mut out: Vec<usize> = Vec::new();
    let mut s: usize = 0;
    while s < group.monitors.len()
        invariant
            0 <= s <= group.monitors.len(),
            group.slots().len() == group.monitors@.len(),
            act == strings(active_monitors@),
            ms == at(workspaces@, ps@),
            valid_positions(workspaces@, ps@),
            forall|k: int| 0 <= k < ps@.len() ==> decode(#[trigger] ms[k].name@) is Some,
            out@.map_values(|s: usize| s as nat) == available(*group, act, ms, s as int),
            forall|k: int| 0 <= k < out@.len() ==> #[trigger] out@[k] < s,
        decreases group.monitors.len() - s,
    {
        if slot_is_active(group, active_monitors, s) {
            let mut taken = false;
            let mut k: usize = 0;
            while k < ps.len()
                invariant
                    0 <= k <= ps.len(),
                    ms == at(workspaces@, ps@),
                    valid_positions(workspaces@, ps@),
                    forall|q: int| 0 <= q < ps@.len() ==> decode(#[trigger] ms[q].name@) is Some,
                    taken == exists|q: int| 0 <= q < k && member_id(#[trigger] ms[q]).slot == s,
                decreases ps.len() - k,
            {
                let w = &workspaces[ps[k]];
                assert(ms[k as int] == *w);
                let id = member_identifier(w);
                if id.get_monitor_index() == s {
                    taken = true;
                }
                k += 1;
            }
            assert(taken == slot_taken(ms, s as int));
            if !taken {
                out.push(s);
            }
        }
        assert(out@.map_values(|s: usize| s as nat) =~= available(*group, act, ms, s + 1));
        s += 1;
    }
    out
}

/// Appends the commands that move workspace `name` to `monitor` and give it slot `s`.
fn push_relocate(cmds: &mut Vec<Command>, name: &String, monitor: &String, s: usize, id: &WorkspaceId)
    ensures
        views(final(cmds)@) == views(old(cmds)@) + relocate(name@, monitor@, s as nat, id@),
{
    cmds.push(Command::MoveWorkspaceToOutput { workspace: name.clone(), output: monitor.clone() });
    if s != id.get_monitor_index() {
        let new_id = WorkspaceId::new(id.get_monitor_group_name(), s, id.get_index());
        cmds.push(Command::Rename { from: name.clone(), to: new_id.to_string() });
    }
    assert(views(final(cmds)@) =~= views(old(cmds)@) + relocate(name@, monitor@, s as nat, id@));
}

/// Appends the commands that move every container of `w` to the workspace of
/// slot `t` of its workspace group.
fn push_merge(cmds: &mut Vec<Command>, w: &WorkspaceInfo, id: &WorkspaceId, t: usize)
    requires
        id@ == member_id(*w),
    ensures
        views(final(cmds)@) == views(old(cmds)@) + merge_commands(*w, t as nat),
{
    let target = WorkspaceId::new(id.get_monitor_group_name(), t, id.get_index()).to_string();
    assert(target@ == encode(IdView { slot: t as nat, ..member_id(*w) }));
    let ghost tv = target@;
    let mut j: usize = 0;
    while j < w.containers.len()
        invariant
            0 <= j <= w.containers.len(),
            target@ == tv,
            tv == encode(IdView { slot: t as nat, ..member_id(*w) }),
            views(cmds@) == views(old(cmds)@) + container_moves(w.containers@.take(j as int), tv),
        decreases w.containers.len() - j,
    {
        let ghost prev = cmds@;
        let cmd = Command::MoveContainerById { container: w.containers[j], workspace: target.clone() };
        assert(cmd@ == CommandView::MoveContainerById(w.containers@[j as int] as int, tv));
        cmds.push(cmd);
        assert(views(cmds@) =~= views(prev).push(cmd@));
        assert(container_moves(w.containers@.take(j + 1), tv) =~= container_moves(
            w.containers@.take(j as int),
            tv,
        ).push(CommandView::MoveContainerById(w.containers@[j as int] as int, tv)));
        assert(views(cmds@) =~= views(old(cmds)@) + container_moves(w.containers@.take(j + 1), tv));
        j += 1;
    }
    assert(w.containers@.take(j as int) =~= w.containers@);
}

/// Reconciles one workspace group: appends its commands, and tells whether it
/// needed the foreign monitor.
fn reorganize_workspace_group(group: &MonitorGroup, active_monitors: &Vec<String>, foreign: &String, workspaces: &Vec<WorkspaceInfo>, ps: &Vec<usize>, cmds: &mut Vec<Command>) -> (used: bool)
    requires
        valid_positions(workspaces@, ps@),
        forall|k: int| 0 <= k < ps@.len() ==> decode(#[trigger] at(workspaces@, ps@)[k].name@) is Some,
    ensures
        views(final(cmds)@) == views(old(cmds)@) + workspace_group_commands(
            *group,
            strings(active_monitors@),
            foreign@,
            at(workspaces@, ps@),
        ),
        used == group_pass(*group, strings(active_monitors@), at(workspaces@, ps@)).used_foreign,
{
    let ghost act = strings(active_monitors@);
    let ghost ms = at(workspaces@, ps@);
    let avail = available_slots(group, active_monitors, workspaces, ps);
    let ghost av = avail@.map_values(|s: usize| s as nat);
    let main = group.get_main_monitor_index(active_monitors);
    let mut cursor: usize = 0;
    let mut used = false;
    let mut i: usize = 0;
    while i < ps.len()
        invariant
            0 <= i <= ps.len(),
            act == strings(active_monitors@),
            ms == at(workspaces@, ps@),
            av == avail@.map_values(|s: usize| s as nat),
            av == available(*group, act, ms, group.slots().len() as int),
            forall|k: int| 0 <= k < avail@.len() ==> #[trigger] avail@[k] < group.monitors@.len(),
            valid_positions(workspaces@, ps@),
            forall|k: int| 0 <= k < ps@.len() ==> decode(#[trigger] ms[k].name@) is Some,
            match group.main_slot(act) {
                Some(s) => main is Ok && main->Ok_0 as nat == s,
                None => main is Err,
            },
            cursor as nat == run(*group, act, av, ms.take(i as int)).cursor,
            used == run(*group, act, av, ms.take(i as int)).used_foreign,
            views(cmds@) == views(old(cmds)@) + pass_commands(*group, act, foreign@, av, ms, i as int),
        decreases ps.len() - i,
    {
        let w = &workspaces[ps[i]];
        assert(ms[i as int] == *w);
        let ghost before = run(*group, act, av, ms.take(i as int));
        proof {
            assert(ms.take(i + 1).drop_last() =~= ms.take(i as int));
            assert(ms.take(i + 1).last() == *w);
            lemma_run_len(*group, act, av, ms.take(i as int));
        }
        let ghost after = run(*group, act, av, ms.take(i + 1));
        assert(after == step(*group, act, av, before, *w));
        let id = member_identifier(w);
        let slot = id.get_monitor_index();
        let placed = match find_output_slot(group, active_monitors, w.output.as_str()) {
            Some(o) => o == slot,
            None => false,
        };
        if placed {
        } else if slot_is_active(group, active_monitors, slot) {
            assert(group.slots().len() == group.monitors@.len());
            push_relocate(cmds, &w.name, &group.monitors[slot], slot, &id);
        } else if cursor < avail.len() {
            let s = avail[cursor];
            assert(av[cursor as int] == s as nat);
            cursor += 1;
            assert(group.slots()[s as int] == group.monitors@[s as int]@);
            push_relocate(cmds, &w.name, &group.monitors[s], s, &id);
        } else if main.is_err() && !used {
            used = true;
            push_relocate(cmds, &w.name, foreign, FOREIGN_MONITOR_INDEX, &id);
        } else {
            let t = match main {
                Ok(s) => s,
                Err(_) => FOREIGN_MONITOR_INDEX,
            };
            push_merge(cmds, w, &id, t);
        }
        assert(views(cmds@) =~= views(old(cmds)@) + pass_commands(*group, act, foreign@, av, ms, i + 1));
        i += 1;
    }
    assert(ms.take(i as int) =~= ms);
    used
}

/// Reconciles the workspace groups of one monitor group: appends their commands,
/// and tells whether one of them needed the foreign monitor.
fn reorganize_monitor_group(config: &Config, group: &MonitorGroup, active_monitors: &Vec<String>, foreign: &String, workspaces: &Vec<WorkspaceInfo>, cmds: &mut Vec<Command>) -> (needs: bool)
    requires
        foreign@ == foreign_name(*config, strings(active_monitors@)),
    ensures
        views(final(cmds)@) == views(old(cmds)@) + monitor_group_commands(
            *config,
            *group,
            strings(active_monitors@),
            workspaces@,
            keys_of(*group, workspaces@),
            keys_of(*group, workspaces@).len() as int,
        ),
        needs == monitor_group_needs_foreign(
            *group,
            strings(active_monitors@),
            workspaces@,
            keys_of(*group, workspaces@),
            keys_of(*group, workspaces@).len() as int,
        ),
{
    let ghost act = strings(active_monitors@);
    let keys = collect_group_keys(workspaces, group.name.as_str());
    let ghost kv = keys_of(*group, workspaces@);
    assert(kv == keys@.map_values(|k: i32| k as int));
    let mut needs = false;
    let mut j: usize = 0;
    while j < keys.len()
        invariant
            0 <= j <= keys.len(),
            act == strings(active_monitors@),
            foreign@ == foreign_name(*config, act),
            kv == keys@.map_values(|k: i32| k as int),
            views(cmds@) == views(old(cmds)@) + monitor_group_commands(*config, *group, act, workspaces@, kv, j as int),
            needs == monitor_group_needs_foreign(*group, act, workspaces@, kv, j as int),
        decreases keys.len() - j,
    {
        let ps = collect_members(workspaces, group.name.as_str(), keys[j]);
        assert(kv[j as int] == keys@[j as int] as int);
        proof {
            lemma_members(workspaces@, group.name@, keys@[j as int] as int, workspaces@.len() as int);
            let ms = at(workspaces@, ps@);
            assert forall|k: int| 0 <= k < ps@.len() implies decode(#[trigger] at(workspaces@, ps@)[k].name@) is Some by {
                assert(is_member(ms[k], group.name@, keys@[j as int] as int));
            }
        }
        let used = reorganize_workspace_group(group, active_monitors, foreign, workspaces, &ps, cmds);
        needs = needs || used;
        j += 1;
    }
    needs
}

/// Plans the reconciliation of every configured monitor group, in order, from the
/// compositor's workspaces and the names of the active monitors. Fails with
/// `NoActiveMonitor` when a workspace needs the foreign monitor and no configured
/// monitor is active.
pub fn reorganize_everything(config: &Config, workspaces: &Vec<WorkspaceInfo>, active_monitors: &Vec<String>) -> (r: Result<Vec<Command>, EngineError>)
    ensures
        r is Err <==> foreign_monitor(*config, strings(active_monitors@)) is None && needs_foreign(
            *config,
            strings(active_monitors@),
            workspaces@,
            config.groups@.len() as int,
        ),
        r is Err ==> r->Err_0 == EngineError::NoActiveMonitor,
        r is Ok ==> views(r->Ok_0@) == reorganize_commands(
            *config,
            strings(active_monitors@),
            workspaces@,
            config.groups@.len() as int,
        ),
{
    let ghost act = strings(active_monitors@);
    let found = get_foreign_monitor(config, active_monitors);
    let foreign = match &found {
        Some(f) => f.clone(),
        None => String::new(),
    };
    let mut cmds: Vec<Command> = Vec::new();
    let mut needs = false;
    let mut i: usize = 0;
    while i < config.groups.len()
        invariant
            0 <= i <= config.groups.len(),
            act == strings(active_monitors@),
            foreign@ == foreign_name(*config, act),
            views(cmds@) == reorganize_commands(*config, act, workspaces@, i as int),
            needs == needs_foreign(*config, act, workspaces@, i as int),
        decreases config.groups.len() - i,
    {
        let ghost prev = cmds@;
        let n = reorganize_monitor_group(config, &config.groups[i], active_monitors, &foreign, workspaces, &mut cmds);
        assert(views(cmds@) =~= reorganize_commands(*config, act, workspaces@, i + 1));
        needs = needs || n;
        i += 1;
    }
    if needs && found.is_none() {
        return Err(EngineError::NoActiveMonitor);
    }
    Ok(cmds)
}

proof fn lemma_run_foreign(g: MonitorGroup, active: Seq<Seq<char>>, avail: Seq<nat>, ms: Seq<WorkspaceInfo>)
    ensures
        run(g, active, avail, ms).placements.len() == ms.len(),
        forall|i: int|
            0 <= i < run(g, active, avail, ms).placements.len() && (#[trigger] run(g, active, avail, ms).placements[i]) is Foreign
                ==> run(g, active, avail, ms).used_foreign,
        forall|i: int, j: int|
            0 <= i < j < run(g, active, avail, ms).placements.len() && (#[trigger] run(g, active, avail, ms).placements[i]) is Foreign
                ==> !((#[trigger] run(g, active, avail, ms).placements[j]) is Foreign),
    decreases ms.len(),
{
    if ms.len() > 0 {
        let prev = run(g, active, avail, ms.drop_last());
        lemma_run_foreign(g, active, avail, ms.drop_last());
        let cur = run(g, active, avail, ms);
        assert(cur == step(g, active, avail, prev, ms.last()));
        assert forall|i: int| 0 <= i < cur.placements.len() - 1 implies cur.placements[i] == prev.placements[i] by {}
    }
}

/// A pass over a workspace group sends at most one of its workspaces to the
/// foreign monitor, however many would need it.
pub proof fn lemma_foreign_at_most_once(g: MonitorGroup, active: Seq<Seq<char>>, ms: Seq<WorkspaceInfo>)
    ensures
        forall|i: int, j: int|
            0 <= i < group_pass(g, active, ms).placements.len() && 0 <= j < group_pass(
                g,
                active,
                ms,
            ).placements.len() && (#[trigger] group_pass(g, active, ms).placements[i]) is Foreign
                && (#[trigger] group_pass(g, active, ms).placements[j]) is Foreign ==> i == j,
{
    let avail = available(g, active, ms, g.slots().len() as int);
    lemma_run_foreign(g, active, avail, ms);
    let p = group_pass(g, active, ms).placements;
    assert forall|i: int, j: int|
        0 <= i < p.len() && 0 <= j < p.len() && (#[trigger] p[i]) is Foreign && (#[trigger] p[j]) is Foreign implies i == j by {
        if i < j {
        } else if j < i {
        }
    }
}

/// Number of active slots below `n`.
pub open spec fn count_active(g: MonitorGroup, active: Seq<Seq<char>>, n: int) -> nat
    decreases n,
{
    if n <= 0 {
        0
    } else {
        count_active(g, active, n - 1) + if is_active_slot(g, active, n - 1) {
            1nat
        } else {
            0nat
        }
    }
}

/// Number of active slots below `n` that a workspace of `ms` names.
spec fn count_taken_active(g: MonitorGroup, active: Seq<Seq<char>>, ms: Seq<WorkspaceInfo>, n: int) -> nat
    decreases n,
{
    if n <= 0 {
        0
    } else {
        count_taken_active(g, active, ms, n - 1) + if is_active_slot(g, active, n - 1) && slot_taken(
            ms,
            n - 1,
        ) {
            1nat
        } else {
            0nat
        }
    }
}

/// Number of workspaces of `ms` whose slot is not active.
spec fn inactive_count(g: MonitorGroup, active: Seq<Seq<char>>, ms: Seq<WorkspaceInfo>) -> nat
    decreases ms.len(),
{
    if ms.len() == 0 {
        0
    } else {
        inactive_count(g, active, ms.drop_last()) + if !is_active_slot(
            g,
            active,
            member_id(ms.last()).slot as int,
        ) {
            1nat
        } else {
            0nat
        }
    }
}

/// Number of workspaces of `ms` whose slot is active and below `n`.
spec fn active_below(g: MonitorGroup, active: Seq<Seq<char>>, ms: Seq<WorkspaceInfo>, n: int) -> nat
    decreases ms.len(),
{
    if ms.len() == 0 {
        0
    } else {
        let s = member_id(ms.last()).slot as int;
        active_below(g, active, ms.drop_last(), n) + if is_active_slot(g, active, s) && s < n {
            1nat
        } else {
            0nat
        }
    }
}

/// Number of workspaces of `ms` whose slot is `t`, an active slot.
spec fn count_at(g: MonitorGroup, active: Seq<Seq<char>>, ms: Seq<WorkspaceInfo>, t: int) -> nat
    decreases ms.len(),
{
    if ms.len() == 0 {
        0
    } else {
        let s = member_id(ms.last()).slot as int;
        count_at(g, active, ms.drop_last(), t) + if is_active_slot(g, active, s) && s == t {
            1nat
        } else {
            0nat
        }
    }
}

proof fn lemma_available_count(g: MonitorGroup, active: Seq<Seq<char>>, ms: Seq<WorkspaceInfo>, n: int)
    ensures
        available(g, active, ms, n).len() + count_taken_active(g, active, ms, n) == count_active(g, active, n),
        forall|i: int| 0 <= i < available(g, active, ms, n).len() ==> is_active_slot(g, active, #[trigger] available(g, active, ms, n)[i] as int),
    decreases n,
{
    if n > 0 {
        lemma_available_count(g, active, ms, n - 1);
        let prev = available(g, active, ms, n - 1);
        let cur = available(g, active, ms, n);
        assert forall|i: int| 0 <= i < cur.len() implies is_active_slot(g, active, #[trigger] cur[i] as int) by {
            if i < prev.len() {
                assert(cur[i] == prev[i]);
            }
        }
    }
}

proof fn lemma_active_below_step(g: MonitorGroup, active: Seq<Seq<char>>, ms: Seq<WorkspaceInfo>, n: int)
    ensures
        active_below(g, active, ms, n + 1) == active_below(g, active, ms, n) + count_at(g, active, ms, n),
    decreases ms.len(),
{
    if ms.len() > 0 {
        lemma_active_below_step(g, active, ms.drop_last(), n);
    }
}

proof fn lemma_count_at_taken(g: MonitorGroup, active: Seq<Seq<char>>, ms: Seq<WorkspaceInfo>, t: int)
    requires
        is_active_slot(g, active, t),
        slot_taken(ms, t),
    ensures
        count_at(g, active, ms, t) >= 1,
    decreases ms.len(),
{
    let k = choose|k: int| 0 <= k < ms.len() && member_id(#[trigger] ms[k]).slot == t;
    if k < ms.len() - 1 {
        assert(ms.drop_last()[k] == ms[k]);
        lemma_count_at_taken(g, active, ms.drop_last(), t);
    }
}

proof fn lemma_taken_bound(g: MonitorGroup, active: Seq<Seq<char>>, ms: Seq<WorkspaceInfo>, n: int)
    requires
        n >= 0,
    ensures
        count_taken_active(g, active, ms, n) <= active_below(g, active, ms, n),
    decreases n,
{
    if n > 0 {
        lemma_taken_bound(g, active, ms, n - 1);
        lemma_active_below_step(g, active, ms, n - 1);
        if is_active_slot(g, active, n - 1) && slot_taken(ms, n - 1) {
            lemma_count_at_taken(g, active, ms, n - 1);
        }
    }
}

proof fn lemma_member_split(g: MonitorGroup, active: Seq<Seq<char>>, ms: Seq<WorkspaceInfo>)
    ensures
        active_below(g, active, ms, g.slots().len() as int) + inactive_count(g, active, ms) == ms.len(),
    decreases ms.len(),
{
    if ms.len() > 0 {
        lemma_member_split(g, active, ms.drop_last());
    }
}

proof fn lemma_run_enough(g: MonitorGroup, active: Seq<Seq<char>>, avail: Seq<nat>, ms: Seq<WorkspaceInfo>)
    requires
        inactive_count(g, active, ms) <= avail.len(),
        forall|i: int| 0 <= i < avail.len() ==> is_active_slot(g, active, #[trigger] avail[i] as int),
    ensures
        run(g, active, avail, ms).cursor <= inactive_count(g, active, ms),
        run(g, active, avail, ms).placements.len() == ms.len(),
        forall|k: int| 0 <= k < ms.len() ==> match #[trigger] run(g, active, avail, ms).placements[k] {
            Placement::Keep => output_slot(g, active, ms[k].output@) == Some(member_id(ms[k]).slot),
            Placement::Place(s) => is_active_slot(g, active, s as int),
            _ => false,
        },
    decreases ms.len(),
{
    if ms.len() > 0 {
        let prefix = ms.drop_last();
        lemma_run_enough(g, active, avail, prefix);
        let prev = run(g, active, avail, prefix);
        let cur = run(g, active, avail, ms);
        assert(cur == step(g, active, avail, prev, ms.last()));
        assert forall|k: int| 0 <= k < ms.len() implies match #[trigger] run(g, active, avail, ms).placements[k] {
            Placement::Keep => output_slot(g, active, ms[k].output@) == Some(member_id(ms[k]).slot),
            Placement::Place(s) => is_active_slot(g, active, s as int),
            _ => false,
        } by {
            if k < ms.len() - 1 {
                assert(cur.placements[k] == prev.placements[k]);
                assert(ms[k] == prefix[k]);
            }
        }
    }
}

/// Where a monitor group has at least as many active monitors as a workspace
/// group has workspaces, reconciliation places every one of them: each either
/// already sits on the monitor of its slot, or moves to an active monitor and
/// takes that monitor's slot. No workspace is merged into another, so no
/// container leaves its workspace.
pub proof fn lemma_reconcile_converges(g: MonitorGroup, active: Seq<Seq<char>>, ms: Seq<WorkspaceInfo>)
    requires
        count_active(g, active, g.slots().len() as int) >= ms.len(),
    ensures
        group_pass(g, active, ms).placements.len() == ms.len(),
        forall|k: int| 0 <= k < ms.len() ==> match #[trigger] group_pass(g, active, ms).placements[k] {
            Placement::Keep => output_slot(g, active, ms[k].output@) == Some(member_id(ms[k]).slot),
            Placement::Place(s) => is_active_slot(g, active, s as int),
            _ => false,
        },
{
    let n = g.slots().len() as int;
    let avail = available(g, active, ms, n);
    lemma_available_count(g, active, ms, n);
    lemma_taken_bound(g, active, ms, n);
    lemma_member_split(g, active, ms);
    lemma_run_enough(g, active, avail, ms);
}

proof fn lemma_run_merge_target(g: MonitorGroup, active: Seq<Seq<char>>, avail: Seq<nat>, ms: Seq<WorkspaceInfo>, m: nat)
    requires
        g.main_slot(active) == Some(m),
    ensures
        run(g, active, avail, ms).placements.len() == ms.len(),
        forall|k: int| 0 <= k < ms.len() && (#[trigger] run(g, active, avail, ms).placements[k]) is Merge ==> run(
            g,
            active,
            avail,
            ms,
        ).placements[k]->Merge_0 == m,
    decreases ms.len(),
{
    if ms.len() > 0 {
        lemma_run_merge_target(g, active, avail, ms.drop_last(), m);
        let prev = run(g, active, avail, ms.drop_last());
        let cur = run(g, active, avail, ms);
        assert(cur == step(g, active, avail, prev, ms.last()));
        assert forall|k: int| 0 <= k < ms.len() - 1 implies cur.placements[k] == prev.placements[k] by {}
    }
}

/// In a monitor group with an active monitor, a workspace that finds no monitor
/// of its own is merged into the workspace of the main monitor's slot of its
/// workspace group: the commands for it move each of its containers there.
pub proof fn lemma_overflow_merges_into_main(g: MonitorGroup, active: Seq<Seq<char>>, foreign: Seq<char>, ms: Seq<WorkspaceInfo>, k: int)
    requires
        g.main_slot(active) is Some,
        0 <= k < ms.len(),
        group_pass(g, active, ms).placements[k] is Merge,
    ensures
        placement_commands(g, foreign, ms[k], group_pass(g, active, ms).placements[k]) == container_moves(
            ms[k].containers@,
            encode(IdView { slot: g.main_slot(active)->0, ..member_id(ms[k]) }),
        ),
{
    let avail = available(g, active, ms, g.slots().len() as int);
    lemma_run_merge_target(g, active, avail, ms, g.main_slot(active)->0);
}

proof fn lemma_available_free(g: MonitorGroup, active: Seq<Seq<char>>, ms: Seq<WorkspaceInfo>, n: int)
    ensures
        forall|i: int| 0 <= i < available(g, active, ms, n).len() ==> !slot_taken(ms, #[trigger] available(g, active, ms, n)[i] as int),
        forall|i: int| 0 <= i < available(g, active, ms, n).len() ==> 0 <= #[trigger] available(g, active, ms, n)[i] < n,
    decreases n,
{
    if n > 0 {
        lemma_available_free(g, active, ms, n - 1);
        let prev = available(g, active, ms, n - 1);
        let cur = available(g, active, ms, n);
        assert forall|i: int| 0 <= i < cur.len() implies !slot_taken(ms, #[trigger] cur[i] as int) && 0 <= cur[i] < n by {
            if i < prev.len() {
                assert(cur[i] == prev[i]);
            }
        }
    }
}

proof fn lemma_run_facts(g: MonitorGroup, active: Seq<Seq<char>>, avail: Seq<nat>, ms: Seq<WorkspaceInfo>)
    ensures
        run(g, active, avail, ms).placements.len() == ms.len(),
        forall|j: int| 0 <= j < ms.len() ==> match #[trigger] run(g, active, avail, ms).placements[j] {
            Placement::Place(s) => s == member_id(ms[j]).slot || avail.contains(s),
            Placement::Merge(_) => !is_active_slot(g, active, member_id(ms[j]).slot as int),
            Placement::Foreign => g.main_slot(active) is None,
            Placement::Keep => true,
        },
    decreases ms.len(),
{
    if ms.len() > 0 {
        let prefix = ms.drop_last();
        lemma_run_facts(g, active, avail, prefix);
        let prev = run(g, active, avail, prefix);
        let cur = run(g, active, avail, ms);
        assert(cur == step(g, active, avail, prev, ms.last()));
        assert forall|j: int| 0 <= j < ms.len() implies match #[trigger] run(g, active, avail, ms).placements[j] {
            Placement::Place(s) => s == member_id(ms[j]).slot || avail.contains(s),
            Placement::Merge(_) => !is_active_slot(g, active, member_id(ms[j]).slot as int),
            Placement::Foreign => g.main_slot(active) is None,
            Placement::Keep => true,
        } by {
            if j < ms.len() - 1 {
                assert(cur.placements[j] == prev.placements[j]);
                assert(ms[j] == prefix[j]);
            } else {
                let p = cur.placements[j];
                if p is Place && !(p->Place_0 == member_id(ms[j]).slot) {
                    assert(avail[prev.cursor as int] == p->Place_0);
                }
            }
        }
    }
}

proof fn lemma_first_in_props(s: Seq<Seq<char>>, active: Seq<Seq<char>>, i: int)
    requires
        0 <= i <= s.len(),
    ensures
        i <= first_in(s, active, i) <= s.len(),
        forall|k: int| i <= k < first_in(s, active, i) ==> !active.contains(#[trigger] s[k]),
        first_in(s, active, i) < s.len() ==> active.contains(s[first_in(s, active, i)]),
    decreases s.len() - i,
{
    if i < s.len() && !active.contains(s[i]) {
        lemma_first_in_props(s, active, i + 1);
    }
}

/// The main slot holds an active monitor.
proof fn lemma_main_slot_active(g: MonitorGroup, active: Seq<Seq<char>>)
    requires
        g.main_slot(active) is Some,
    ensures
        is_active_slot(g, active, g.main_slot(active)->0 as int),
{
    let m = g.main_slot(active)->0 as int;
    lemma_first_in_props(g.slots(), active, 0);
    assert forall|k: int| 0 <= k < m implies g.slots()[k] != g.slots()[m] by {
        assert(!active.contains(g.slots()[k]));
    }
    lemma_position_from(g.slots(), g.slots()[m], 0, m);
}

/// Whether command `c` names workspace `name`.
pub open spec fn mentions(c: CommandView, name: Seq<char>) -> bool {
    match c {
        CommandView::AssignOutput(w, _) => w == name,
        CommandView::Focus(w) => w == name,
        CommandView::Rename(f, t) => f == name || t == name,
        CommandView::MoveContainer(w) => w == name,
        CommandView::MoveContainerById(_, w) => w == name,
        CommandView::MoveWorkspaceToOutput(w, _) => w == name,
    }
}

/// The workspaces of `ms` are managed, make up one workspace group, and have
/// distinct names.
pub open spec fn one_workspace_group(ms: Seq<WorkspaceInfo>) -> bool {
    &&& forall|i: int| 0 <= i < ms.len() ==> decode(#[trigger] ms[i].name@) is Some
    &&& forall|i: int, j: int| 0 <= i < ms.len() && 0 <= j < ms.len() ==> member_id(#[trigger] ms[i]).group == member_id(#[trigger] ms[j]).group
        && member_id(ms[i]).index == member_id(ms[j]).index
    &&& forall|i: int, j: int| 0 <= i < j < ms.len() ==> (#[trigger] ms[i]).name@ != (#[trigger] ms[j]).name@
}

/// Once a workspace has been merged into the main monitor's workspace, no later
/// command of the pass over its workspace group names it.
pub proof fn lemma_merged_name_unused(g: MonitorGroup, active: Seq<Seq<char>>, foreign: Seq<char>, ms: Seq<WorkspaceInfo>, k: int, j: int, i: int)
    requires
        g.main_slot(active) is Some,
        g.slots().len() <= usize::MAX,
        one_workspace_group(ms),
        0 <= k < j < ms.len(),
        group_pass(g, active, ms).placements[k] is Merge,
        0 <= i < placement_commands(g, foreign, ms[j], group_pass(g, active, ms).placements[j]).len(),
    ensures
        !mentions(placement_commands(g, foreign, ms[j], group_pass(g, active, ms).placements[j])[i], ms[k].name@),
{
    let n = g.slots().len() as int;
    let avail = available(g, active, ms, n);
    lemma_run_facts(g, active, avail, ms);
    lemma_run_merge_target(g, active, avail, ms, g.main_slot(active)->0);
    lemma_available_free(g, active, ms, n);
    let p = group_pass(g, active, ms).placements;
    let idk = member_id(ms[k]);
    let idj = member_id(ms[j]);
    assert(idj.group == idk.group && idj.index == idk.index);
    assert(ms[k].name@ != ms[j].name@);
    let cs = placement_commands(g, foreign, ms[j], p[j]);
    let c = cs[i];
    if mentions(c, ms[k].name@) {
        assert(decode(ms[k].name@) == Some(idk));
        match p[j] {
            Placement::Keep => {},
            Placement::Place(s) => {
                if i == 1 {
                    let v = IdView { slot: s, ..idj };
                    assert(c == CommandView::Rename(ms[j].name@, encode(v)));
                    assert(s != idj.slot);
                    let q = choose|q: int| 0 <= q < avail.len() && avail[q] == s;
                    assert(!slot_taken(ms, s as int));
                    assert(is_group_name(idj.group));
                    lemma_decode_encode(idj.group, s as usize, idj.index as i32);
                    assert(encode(v) == ms[k].name@);
                    assert(idk == v);
                    assert(member_id(ms[k]).slot == s);
                }
            },
            Placement::Foreign => {},
            Placement::Merge(t) => {
                let m = g.main_slot(active)->0;
                lemma_main_slot_active(g, active);
                let v = IdView { slot: m, ..idj };
                assert(c == CommandView::MoveContainerById(ms[j].containers@[i] as int, encode(v)));
                assert(is_group_name(idj.group));
                lemma_decode_encode(idj.group, m as usize, idj.index as i32);
                assert(idk == v);
                assert(!is_active_slot(g, active, idk.slot as int));
            },
        }
    }
}

/// The name workspace `w` has after placement `p`.
pub open spec fn final_name(w: WorkspaceInfo, p: Placement) -> Seq<char> {
    match p {
        Placement::Place(s) => if s != member_id(w).slot {
            encode(IdView { slot: s, ..member_id(w) })
        } else {
            w.name@
        },
        _ => w.name@,
    }
}

/// Whether placement `p` of `w` renames it.
pub open spec fn renamed(w: WorkspaceInfo, p: Placement) -> bool {
    p is Place && p->Place_0 != member_id(w).slot
}

proof fn lemma_available_ascending(g: MonitorGroup, active: Seq<Seq<char>>, ms: Seq<WorkspaceInfo>, n: int)
    ensures
        forall|a: int, b: int| 0 <= a < b < available(g, active, ms, n).len() ==> #[trigger] available(g, active, ms, n)[a] < #[trigger] available(g, active, ms, n)[b],
    decreases n,
{
    if n > 0 {
        lemma_available_ascending(g, active, ms, n - 1);
        lemma_available_free(g, active, ms, n - 1);
        let prev = available(g, active, ms, n - 1);
        let cur = available(g, active, ms, n);
        assert forall|a: int, b: int| 0 <= a < b < cur.len() implies #[trigger] cur[a] < #[trigger] cur[b] by {
            assert(cur[a] == prev[a]);
            if b < prev.len() {
                assert(cur[b] == prev[b]);
            }
        }
    }
}

proof fn lemma_run_renames(g: MonitorGroup, active: Seq<Seq<char>>, avail: Seq<nat>, ms: Seq<WorkspaceInfo>)
    requires
        forall|a: int, b: int| 0 <= a < b < avail.len() ==> #[trigger] avail[a] < #[trigger] avail[b],
    ensures
        run(g, active, avail, ms).placements.len() == ms.len(),
        run(g, active, avail, ms).cursor <= avail.len(),
        forall|j: int| 0 <= j < ms.len() && renamed(ms[j], #[trigger] run(g, active, avail, ms).placements[j])
            ==> exists|c: int| 0 <= c < run(g, active, avail, ms).cursor && avail[c] == run(g, active, avail, ms).placements[j]->Place_0,
        forall|j: int, k: int| 0 <= j < k < ms.len() && renamed(ms[j], #[trigger] run(g, active, avail, ms).placements[j])
            && renamed(ms[k], #[trigger] run(g, active, avail, ms).placements[k])
            ==> run(g, active, avail, ms).placements[j]->Place_0 != run(g, active, avail, ms).placements[k]->Place_0,
    decreases ms.len(),
{
    if ms.len() > 0 {
        let prefix = ms.drop_last();
        lemma_run_renames(g, active, avail, prefix);
        let prev = run(g, active, avail, prefix);
        let cur = run(g, active, avail, ms);
        assert(cur == step(g, active, avail, prev, ms.last()));
        let n = ms.len() - 1;
        assert forall|j: int| 0 <= j < n implies cur.placements[j] == prev.placements[j] && ms[j] == prefix[j] by {}
        assert forall|j: int| 0 <= j < ms.len() && renamed(ms[j], #[trigger] cur.placements[j])
            implies exists|c: int| 0 <= c < cur.cursor && avail[c] == cur.placements[j]->Place_0 by {
            if j < n {
                assert(renamed(prefix[j], prev.placements[j]));
                let c = choose|c: int| 0 <= c < prev.cursor && avail[c] == prev.placements[j]->Place_0;
            } else {
                assert(avail[prev.cursor as int] == cur.placements[j]->Place_0);
            }
        }
        assert forall|j: int, k: int| 0 <= j < k < ms.len() && renamed(ms[j], #[trigger] cur.placements[j])
            && renamed(ms[k], #[trigger] cur.placements[k]) implies cur.placements[j]->Place_0 != cur.placements[k]->Place_0 by {
            assert(renamed(prefix[j], prev.placements[j]));
            if k < n {
                assert(renamed(prefix[k], prev.placements[k]));
            } else {
                let c = choose|c: int| 0 <= c < prev.cursor && avail[c] == prev.placements[j]->Place_0;
                assert(cur.placements[k]->Place_0 == avail[prev.cursor as int]);
                assert(avail[c] < avail[prev.cursor as int]);
            }
        }
    }
}

/// Where a monitor group has at least as many active monitors as a workspace group
/// has workspaces (with distinct names), reconciliation sends no container-moving
/// command, so every container stays in its workspace, and the names the
/// workspaces end with are pairwise distinct.
pub proof fn lemma_reconcile_keeps_containers_and_names(g: MonitorGroup, active: Seq<Seq<char>>, foreign: Seq<char>, ms: Seq<WorkspaceInfo>)
    requires
        count_active(g, active, g.slots().len() as int) >= ms.len(),
        g.slots().len() <= usize::MAX,
        one_workspace_group(ms),
    ensures
        forall|k: int, i: int| 0 <= k < ms.len() && 0 <= i < placement_commands(g, foreign, ms[k], group_pass(g, active, ms).placements[k]).len()
            ==> !(#[trigger] placement_commands(g, foreign, ms[k], group_pass(g, active, ms).placements[k])[i] is MoveContainerById),
        forall|j: int, k: int| 0 <= j < k < ms.len() ==> #[trigger] final_name(ms[j], group_pass(g, active, ms).placements[j])
            != #[trigger] final_name(ms[k], group_pass(g, active, ms).placements[k]),
{
    let n = g.slots().len() as int;
    let avail = available(g, active, ms, n);
    lemma_reconcile_converges(g, active, ms);
    lemma_available_ascending(g, active, ms, n);
    lemma_available_free(g, active, ms, n);
    lemma_run_renames(g, active, avail, ms);
    lemma_run_facts(g, active, avail, ms);
    let p = group_pass(g, active, ms).placements;
    assert forall|k: int, i: int| 0 <= k < ms.len() && 0 <= i < placement_commands(g, foreign, ms[k], p[k]).len()
        implies !(#[trigger] placement_commands(g, foreign, ms[k], p[k])[i] is MoveContainerById) by {
        assert(p[k] is Keep || p[k] is Place);
    }
    assert forall|j: int, k: int| 0 <= j < k < ms.len() implies #[trigger] final_name(ms[j], p[j]) != #[trigger] final_name(ms[k], p[k]) by {
        let idj = member_id(ms[j]);
        let idk = member_id(ms[k]);
        assert(decode(ms[j].name@) == Some(idj));
        assert(decode(ms[k].name@) == Some(idk));
        assert(is_group_name(idj.group) && is_group_name(idk.group));
        assert(idj.group == idk.group && idj.index == idk.index);
        if renamed(ms[j], p[j]) {
            let sj = p[j]->Place_0;
            let cj = choose|c: int| 0 <= c < avail.len() && avail[c] == sj;
            assert(!slot_taken(ms, sj as int));
            lemma_decode_encode(idj.group, sj as usize, idj.index as i32);
            if renamed(ms[k], p[k]) {
                let sk = p[k]->Place_0;
                lemma_decode_encode(idk.group, sk as usize, idk.index as i32);
            } else {
                assert(member_id(ms[k]).slot != sj);
            }
        } else if renamed(ms[k], p[k]) {
            let sk = p[k]->Place_0;
            let ck = choose|c: int| 0 <= c < avail.len() && avail[c] == sk;
            assert(!slot_taken(ms, sk as int));
            lemma_decode_encode(idk.group, sk as usize, idk.index as i32);
            assert(member_id(ms[j]).slot != sk);
        }
    }
}

} // verus!
