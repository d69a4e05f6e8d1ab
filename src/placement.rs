//! Placement planners: the commands that seed, switch, move and swap workspace
//! groups, computed from a snapshot of the compositor.
use crate::command::{views, Command, CommandView};
use crate::config::{Config, MonitorGroup, FIRST_WORKSPACE_GROUP};
use crate::destination::{get_target_index, target_index};
use crate::error::EngineError;
use crate::snapshot::{find_focused_workspace, focused, WorkspaceInfo};
use crate::text::{contains_str, str_eq, strings};
use crate::workspace_id::{decode, encode, IdView, WorkspaceId};
use rand::distr::{Alphanumeric, SampleString};
use vstd::prelude::*;
use vstd::string::StringExecFns;

verus! {

/// Name of workspace `(group, slot, index)`.
pub open spec fn ws_name(group: Seq<char>, slot: int, index: int) -> Seq<char> {
    encode(IdView { group, slot: slot as nat, index })
}

/// Assign-and-show commands for the slots below `n` of `g` that `keep` admits,
/// all on workspace group `index`.
pub open spec fn show_commands(g: MonitorGroup, index: int, keep: spec_fn(int) -> bool, n: int) -> Seq<CommandView>
    decreases n,
{
    if n <= 0 || n > g.slots().len() {
        Seq::empty()
    } else if keep(n - 1) {
        let w = ws_name(g.name@, n - 1, index);
        show_commands(g, index, keep, n - 1) + seq![
            CommandView::AssignOutput(w, g.slots()[n - 1]),
            CommandView::Focus(w),
        ]
    } else {
        show_commands(g, index, keep, n - 1)
    }
}

/// Slots whose monitor is active.
pub open spec fn active_filter(g: MonitorGroup, active: Seq<Seq<char>>) -> spec_fn(int) -> bool {
    |s: int| active.contains(g.slots()[s])
}

/// Every slot.
pub open spec fn all_slots() -> spec_fn(int) -> bool {
    |s: int| true
}

/// Slots whose monitor is active, but for `skip`.
pub open spec fn active_but(g: MonitorGroup, active: Seq<Seq<char>>, skip: int) -> spec_fn(int) -> bool {
    |s: int| s != skip && active.contains(g.slots()[s])
}

/// Seeding commands for the first `n` groups.
pub open spec fn seed_commands(gs: Seq<MonitorGroup>, active: Seq<Seq<char>>, n: int) -> Seq<CommandView>
    decreases n,
{
    if n <= 0 || n > gs.len() {
        Seq::empty()
    } else {
        let g = gs[n - 1];
        seed_commands(gs, active, n - 1) + show_commands(
            g,
            FIRST_WORKSPACE_GROUP as int,
            active_filter(g, active),
            g.slots().len() as int,
        )
    }
}

/// The plan of Init.
pub open spec fn init_plan(config: Config, active: Seq<Seq<char>>) -> Result<Seq<CommandView>, EngineError> {
    let gs = config.groups@;
    if gs.len() == 0 {
        Err(EngineError::ConfigError)
    } else {
        match gs[0].main_slot(active) {
            None => Err(EngineError::NoActiveMonitor),
            Some(s) => Ok(
                seed_commands(gs, active, gs.len() as int) + seq![
                    CommandView::Focus(ws_name(gs[0].name@, s as int, FIRST_WORKSPACE_GROUP as int)),
                ],
            ),
        }
    }
}

/// Whether `r` carries out `plan`.
pub open spec fn follows(r: Result<Vec<Command>, EngineError>, plan: Result<Seq<CommandView>, EngineError>) -> bool {
    match plan {
        Ok(cs) => r is Ok && views(r->Ok_0@) == cs,
        Err(e) => r is Err && r->Err_0 == e,
    }
}

/// Appends assign-and-show commands for the slots of `group` that `keep` admits.
fn push_show(cmds: &mut Vec<Command>, group: &MonitorGroup, index: i32, active_monitors: &Vec<String>, mode: u8, skip: usize)
    requires
        mode <= 2,
    ensures
        views(final(cmds)@) == views(old(cmds)@) + show_commands(
            *group,
            index as int,
            if mode == 0 {
                all_slots()
            } else if mode == 1 {
                active_filter(*group, strings(active_monitors@))
            } else {
                active_but(*group, strings(active_monitors@), skip as int)
            },
            group.slots().len() as int,
        ),
{
    let ghost act = strings(active_monitors@);
    let ghost keep = if mode == 0 {
        all_slots()
    } else if mode == 1 {
        active_filter(*group, act)
    } else {
        active_but(*group, act, skip as int)
    };
    assert(group.slots().len() == group.monitors@.len());
    let mut s: usize = 0;
    while s < group.monitors.len()
        invariant
            0 <= s <= group.monitors.len(),
            group.slots().len() == group.monitors@.len(),
            act == strings(active_monitors@),
            keep == (if mode == 0 {
                all_slots()
            } else if mode == 1 {
                active_filter(*group, act)
            } else {
                active_but(*group, act, skip as int)
            }),
            views(cmds@) == views(old(cmds)@) + show_commands(*group, index as int, keep, s as int),
        decreases group.monitors.len() - s,
    {
        let m = &group.monitors[s];
        assert(group.slots()[s as int] == m@);
        let wanted = if mode == 0 {
            true
        } else if mode == 1 {
            contains_str(active_monitors, m.as_str())
        } else {
            s != skip && contains_str(active_monitors, m.as_str())
        };
        assert(wanted == keep(s as int));
        if wanted {
            let w = WorkspaceId::new(group.name.as_str(), s, index).to_string();
            let ghost prev = cmds@;
            cmds.push(Command::AssignOutput { workspace: w.clone(), output: m.clone() });
            cmds.push(Command::Focus { workspace: w });
            assert(views(cmds@) =~= views(prev) + seq![
                CommandView::AssignOutput(ws_name(group.name@, s as int, index as int), m@),
                CommandView::Focus(ws_name(group.name@, s as int, index as int)),
            ]);
        }
        assert(views(cmds@) =~= views(old(cmds)@) + show_commands(*group, index as int, keep, s + 1));
        s += 1;
    }
}

/// Plans Init: every active monitor of every group gets the first workspace of
/// its slot, and the main monitor's workspace of the primary group ends focused.
pub fn init_workspaces(config: &Config, active_monitors: &Vec<String>) -> (r: Result<Vec<Command>, EngineError>)
    ensures
        follows(r, init_plan(*config, strings(active_monitors@))),
{
    let ghost act = strings(active_monitors@);
    let primary = match config.get_primary_group() {
        Ok(g) => g,
        Err(e) => {
            return Err(e);
        },
    };
    let main = match primary.get_main_monitor_index(active_monitors) {
        Ok(s) => s,
        Err(e) => {
            return Err(e);
        },
    };
    let mut cmds: Vec<Command> = Vec::new();
    let mut i: usize = 0;
    while i < config.groups.len()
        invariant
            0 <= i <= config.groups.len(),
            act == strings(active_monitors@),
            views(cmds@) == seed_commands(config.groups@, act, i as int),
        decreases config.groups.len() - i,
    {
        let ghost prev = cmds@;
        push_show(&mut cmds, &config.groups[i], FIRST_WORKSPACE_GROUP, active_monitors, 1, 0);
        assert(views(cmds@) =~= seed_commands(config.groups@, act, i + 1));
        i += 1;
    }
    let w = WorkspaceId::new(primary.name.as_str(), main, FIRST_WORKSPACE_GROUP).to_string();
    let ghost prev = cmds@;
    cmds.push(Command::Focus { workspace: w });
    assert(views(cmds@) =~= views(prev).push(CommandView::Focus(w@)));
    assert(*primary == config.groups@[0]);
    assert(config.groups@[0].main_slot(act) == Some(main as nat));
    assert(w@ == ws_name(config.groups@[0].name@, main as int, FIRST_WORKSPACE_GROUP as int));
    assert(views(cmds@) =~= seed_commands(config.groups@, act, config.groups@.len() as int) + seq![
        CommandView::Focus(ws_name(config.groups@[0].name@, main as int, FIRST_WORKSPACE_GROUP as int)),
    ]);
    Ok(cmds)
}

/// Slot whose workspace takes focus after a switch of `group`: that of the focused
/// workspace if it belongs to the group, else that of its output in the group.
pub open spec fn focus_slot(config: Config, group: Seq<char>, f: WorkspaceInfo) -> Option<nat> {
    if decode(f.name@) is Some && decode(f.name@)->0.group == group {
        Some(decode(f.name@)->0.slot)
    } else {
        match config.group(group) {
            Some(g) => g.slot_of(f.output@),
            None => None,
        }
    }
}

/// The workspace that ends focused after switching `g` to index `t`, when `f` is
/// the focused workspace.
pub open spec fn next_focus(config: Config, group: Seq<char>, g: MonitorGroup, t: int, f: WorkspaceInfo) -> Seq<char> {
    match focus_slot(config, group, f) {
        Some(s) => ws_name(g.name@, s as int, t),
        None => f.name@,
    }
}

/// The plan of Switch.
pub open spec fn switch_plan(config: Config, ws: Seq<WorkspaceInfo>, group: Seq<char>, destination: Seq<char>) -> Result<Seq<CommandView>, EngineError> {
    match target_index(ws, group, destination) {
        None => Err(EngineError::ParseError),
        Some(t) => match focused(ws) {
            None => Err(EngineError::NoFocusedWorkspace),
            Some(f) => match config.group(group) {
                None => Err(EngineError::GroupNotFound),
                Some(g) => Ok(
                    show_commands(g, t, all_slots(), g.slots().len() as int) + seq![
                        CommandView::Focus(next_focus(config, group, g, t, f)),
                    ],
                ),
            },
        },
    }
}

/// Plans Switch: every monitor of `monitor_group` shows the workspace group that
/// `destination` leads to, in one batch, and focus stays on the same slot.
pub fn switch_workspace_groups(config: &Config, workspaces: &Vec<WorkspaceInfo>, monitor_group: &str, destination: &str) -> (r: Result<Vec<Command>, EngineError>)
    ensures
        follows(r, switch_plan(*config, workspaces@, monitor_group@, destination@)),
{
    let next = match get_target_index(workspaces, monitor_group, destination) {
        Ok(t) => t,
        Err(e) => {
            return Err(e);
        },
    };
    let f = match find_focused_workspace(workspaces) {
        Some(p) => &workspaces[p],
        None => {
            return Err(EngineError::NoFocusedWorkspace);
        },
    };
    let group = match config.get_group(monitor_group) {
        Some(g) => g,
        None => {
            return Err(EngineError::GroupNotFound);
        },
    };
    let slot = match WorkspaceId::parse_safe(f.name.as_str()) {
        Some(id) => if str_eq(id.get_monitor_group_name(), monitor_group) {
            Some(id.get_monitor_index())
        } else {
            group.get_monitor_index(f.output.as_str())
        },
        None => group.get_monitor_index(f.output.as_str()),
    };
    let focus_name = match slot {
        Some(s) => WorkspaceId::new(group.name.as_str(), s, next).to_string(),
        None => f.name.clone(),
    };
    let ghost fs = focus_slot(*config, monitor_group@, *f);
    assert(match fs {
        Some(s) => focus_name@ == ws_name(group.name@, s as int, next as int),
        None => focus_name@ == f.name@,
    });
    let none: Vec<String> = Vec::new();
    let mut cmds: Vec<Command> = Vec::new();
    push_show(&mut cmds, group, next, &none, 0, 0);
    let ghost prev = cmds@;
    cmds.push(Command::Focus { workspace: focus_name });
    assert(views(cmds@) =~= views(prev).push(CommandView::Focus(focus_name@)));
    let ghost t = target_index(workspaces@, monitor_group@, destination@)->0;
    assert(next as int == t);
    assert(focused(workspaces@) == Some(*f));
    assert(config.group(monitor_group@) == Some(*group));
    assert(views(cmds@) == show_commands(*group, t, all_slots(), group.slots().len() as int) + seq![CommandView::Focus(focus_name@)]);
    Ok(cmds)
}

/// Where the focused container comes from: its slot and monitor group.
pub open spec fn move_origin(config: Config, active: Seq<Seq<char>>, f: WorkspaceInfo) -> Result<(nat, Seq<char>), EngineError> {
    if decode(f.name@) is Some {
        Ok((decode(f.name@)->0.slot, decode(f.name@)->0.group))
    } else if config.groups@.len() == 0 {
        Err(EngineError::ConfigError)
    } else {
        match config.groups@[0].main_slot(active) {
            None => Err(EngineError::NoActiveMonitor),
            Some(s) => Ok((s, config.groups@[0].name@)),
        }
    }
}

/// The plan of Move-Container.
pub open spec fn move_plan(config: Config, ws: Seq<WorkspaceInfo>, active: Seq<Seq<char>>, destination: Seq<char>, group_override: Option<Seq<char>>, change_focus: bool) -> Result<Seq<CommandView>, EngineError> {
    match focused(ws) {
        None => Err(EngineError::NoFocusedWorkspace),
        Some(f) => match move_origin(config, active, f) {
            Err(e) => Err(e),
            Ok((slot, origin_group)) => {
                let tg = match group_override {
                    Some(n) => n,
                    None => origin_group,
                };
                match target_index(ws, tg, destination) {
                    None => Err(EngineError::ParseError),
                    Some(t) => {
                        let target = ws_name(tg, slot as int, t);
                        match config.group(tg) {
                            None => Err(EngineError::GroupNotFound),
                            Some(g) => if change_focus {
                                Ok(
                                    seq![CommandView::MoveContainer(target)] + show_commands(
                                        g,
                                        t,
                                        active_but(g, active, slot as int),
                                        g.slots().len() as int,
                                    ) + seq![CommandView::Focus(target)],
                                )
                            } else {
                                Ok(seq![CommandView::MoveContainer(target)])
                            },
                        }
                    },
                }
            },
        },
    }
}

/// Plans Move-Container: the focused container moves to the workspace of the same
/// slot in the workspace group that `destination` leads to; with `change_focus`
/// every other active monitor of the group follows, and the destination ends focused.
/// Fails with `GroupNotFound` when the target group is not configured.
pub fn move_container_to_workspace_group(config: &Config, workspaces: &Vec<WorkspaceInfo>, active_monitors: &Vec<String>, destination: &str, monitor_group: Option<&str>, change_focus: bool) -> (r: Result<Vec<Command>, EngineError>)
    ensures
        follows(
            r,
            move_plan(
                *config,
                workspaces@,
                strings(active_monitors@),
                destination@,
                match monitor_group {
                    Some(n) => Some(n@),
                    None => None,
                },
                change_focus,
            ),
        ),
{
    let ghost act = strings(active_monitors@);
    let f = match find_focused_workspace(workspaces) {
        Some(p) => &workspaces[p],
        None => {
            return Err(EngineError::NoFocusedWorkspace);
        },
    };
    let (slot, origin_group) = match WorkspaceId::parse_safe(f.name.as_str()) {
        Some(id) => (id.get_monitor_index(), String::from_str(id.get_monitor_group_name())),
        None => {
            let primary = match config.get_primary_group() {
                Ok(g) => g,
                Err(e) => {
                    return Err(e);
                },
            };
            match primary.get_main_monitor_index(active_monitors) {
                Ok(s) => (s, primary.name.clone()),
                Err(e) => {
                    return Err(e);
                },
            }
        },
    };
    let tg: &str = match monitor_group {
        Some(n) => n,
        None => origin_group.as_str(),
    };
    let t = match get_target_index(workspaces, tg, destination) {
        Ok(t) => t,
        Err(e) => {
            return Err(e);
        },
    };
    let target = WorkspaceId::new(tg, slot, t).to_string();
    proof {
        let ov = match monitor_group {
            Some(n) => Some(n@),
            None => None,
        };
        assert(focused(workspaces@) == Some(*f));
        assert(move_origin(*config, act, *f) == Ok::<(nat, Seq<char>), EngineError>((slot as nat, origin_group@)));
        assert(tg@ == match ov {
            Some(n) => n,
            None => origin_group@,
        });
        assert(t as int == target_index(workspaces@, tg@, destination@)->0);
        assert(target@ == ws_name(tg@, slot as int, t as int));
    }
    let mut cmds: Vec<Command> = Vec::new();
    cmds.push(Command::MoveContainer { workspace: target.clone() });
    assert(views(cmds@) =~= seq![CommandView::MoveContainer(target@)]);
    match config.get_group(tg) {
        None => {
            return Err(EngineError::GroupNotFound);
        },
        Some(g) => {
            if change_focus {
                let ghost first = cmds@;
                push_show(&mut cmds, g, t, active_monitors, 2, slot);
                let ghost prev = cmds@;
                let ghost tv = target@;
                cmds.push(Command::Focus { workspace: target });
                assert(views(cmds@) =~= views(prev).push(CommandView::Focus(tv)));
                assert(views(cmds@) =~= seq![CommandView::MoveContainer(tv)] + show_commands(
                    *g,
                    t as int,
                    active_but(*g, act, slot as int),
                    g.slots().len() as int,
                ) + seq![CommandView::Focus(tv)]);
            }
        },
    }
    Ok(cmds)
}

/// Whether one of the workspaces is named `x`.
pub open spec fn has_name(ws: Seq<WorkspaceInfo>, x: Seq<char>) -> bool {
    exists|k: int| 0 <= k < ws.len() && (#[trigger] ws[k]).name@ == x
}

/// Renames that swap workspaces `from` and `to` of one slot through `temp`.
pub open spec fn swap_slot(ws: Seq<WorkspaceInfo>, from: Seq<char>, to: Seq<char>, temp: Seq<char>) -> Seq<CommandView> {
    if !has_name(ws, from) {
        if !has_name(ws, to) {
            Seq::empty()
        } else {
            seq![CommandView::Rename(to, from)]
        }
    } else if has_name(ws, to) {
        seq![
            CommandView::Rename(to, temp),
            CommandView::Rename(from, to),
            CommandView::Rename(temp, from),
        ]
    } else {
        seq![CommandView::Rename(from, to)]
    }
}

/// Swap renames for the active slots below `n`.
pub open spec fn swap_commands(ws: Seq<WorkspaceInfo>, g: MonitorGroup, active: Seq<Seq<char>>, from_index: int, to_index: int, temp: Seq<char>, n: int) -> Seq<CommandView>
    decreases n,
{
    if n <= 0 || n > g.slots().len() {
        Seq::empty()
    } else if active.contains(g.slots()[n - 1]) {
        swap_commands(ws, g, active, from_index, to_index, temp, n - 1) + swap_slot(
            ws,
            ws_name(g.name@, n - 1, from_index),
            ws_name(g.name@, n - 1, to_index),
            temp,
        )
    } else {
        swap_commands(ws, g, active, from_index, to_index, temp, n - 1)
    }
}

/// The group a swap works on: the one named, else the primary group.
pub open spec fn swap_group(config: Config, group_override: Option<Seq<char>>) -> Result<MonitorGroup, EngineError> {
    match group_override {
        Some(n) => match config.group(n) {
            Some(g) => Ok(g),
            None => Err(EngineError::GroupNotFound),
        },
        None => if config.groups@.len() == 0 {
            Err(EngineError::ConfigError)
        } else {
            Ok(config.groups@[0])
        },
    }
}

/// The plan of Swap-Group with temporary name `temp`.
pub open spec fn swap_plan(config: Config, ws: Seq<WorkspaceInfo>, active: Seq<Seq<char>>, from_index: int, to: Seq<char>, group_override: Option<Seq<char>>, temp: Seq<char>) -> Result<Seq<CommandView>, EngineError> {
    match swap_group(config, group_override) {
        Err(e) => Err(e),
        Ok(g) => match target_index(ws, g.name@, to) {
            None => Err(EngineError::ParseError),
            Some(t) => Ok(swap_commands(ws, g, active, from_index, t, temp, g.slots().len() as int)),
        },
    }
}

/// Whether one of the workspaces is named `x`.
fn find_name(workspaces: &Vec<WorkspaceInfo>, x: &str) -> (r: bool)
    ensures
        r == has_name(workspaces@, x@),
{
    let mut i: usize = 0;
    while i < workspaces.len()
        invariant
            0 <= i <= workspaces.len(),
            forall|k: int| 0 <= k < i ==> (#[trigger] workspaces@[k]).name@ != x@,
        decreases workspaces.len() - i,
    {
        if str_eq(workspaces[i].name.as_str(), x) {
            return true;
        }
        i += 1;
    }
    false
}

/// Appends the renames that swap workspaces `from` and `to` through `temp`.
fn push_swap_slot(cmds: &mut Vec<Command>, workspaces: &Vec<WorkspaceInfo>, from: &String, to: &String, temp: &str)
    ensures
        views(final(cmds)@) == views(old(cmds)@) + swap_slot(workspaces@, from@, to@, temp@),
{
    let has_from = find_name(workspaces, from.as_str());
    let has_to = find_name(workspaces, to.as_str());
    if !has_from {
        if has_to {
            cmds.push(Command::Rename { from: to.clone(), to: from.clone() });
        }
    } else if has_to {
        cmds.push(Command::Rename { from: to.clone(), to: String::from_str(temp) });
        cmds.push(Command::Rename { from: from.clone(), to: to.clone() });
        cmds.push(Command::Rename { from: String::from_str(temp), to: from.clone() });
    } else {
        cmds.push(Command::Rename { from: from.clone(), to: to.clone() });
    }
    assert(views(final(cmds)@) =~= views(old(cmds)@) + swap_slot(workspaces@, from@, to@, temp@));
}

/// Plans Swap-Group with the temporary name `temp`: on every active slot of the
/// group, workspaces `from_index` and the one `to` leads to trade names.
pub fn plan_swap(config: &Config, workspaces: &Vec<WorkspaceInfo>, active_monitors: &Vec<String>, from_index: i32, to: &str, monitor_group: Option<&str>, temp: &str) -> (r: Result<Vec<Command>, EngineError>)
    ensures
        follows(
            r,
            swap_plan(
                *config,
                workspaces@,
                strings(active_monitors@),
                from_index as int,
                to@,
                match monitor_group {
                    Some(n) => Some(n@),
                    None => None,
                },
                temp@,
            ),
        ),
{
    let ghost act = strings(active_monitors@);
    let group = match monitor_group {
        Some(n) => match config.get_group(n) {
            Some(g) => g,
            None => {
                return Err(EngineError::GroupNotFound);
            },
        },
        None => match config.get_primary_group() {
            Ok(g) => g,
            Err(e) => {
                return Err(e);
            },
        },
    };
    let t = match get_target_index(workspaces, group.name.as_str(), to) {
        Ok(t) => t,
        Err(e) => {
            return Err(e);
        },
    };
    assert(group.slots().len() == group.monitors@.len());
    let mut cmds: Vec<Command> = Vec::new();
    let mut s: usize = 0;
    while s < group.monitors.len()
        invariant
            0 <= s <= group.monitors.len(),
            group.slots().len() == group.monitors@.len(),
            act == strings(active_monitors@),
            views(cmds@) == swap_commands(workspaces@, *group, act, from_index as int, t as int, temp@, s as int),
        decreases group.monitors.len() - s,
    {
        let m = &group.monitors[s];
        assert(group.slots()[s as int] == m@);
        if contains_str(active_monitors, m.as_str()) {
            let from_name = WorkspaceId::new(group.name.as_str(), s, from_index).to_string();
            let to_name = WorkspaceId::new(group.name.as_str(), s, t).to_string();
            push_swap_slot(&mut cmds, workspaces, &from_name, &to_name, temp);
        }
        assert(views(cmds@) =~= swap_commands(workspaces@, *group, act, from_index as int, t as int, temp@, s + 1));
        s += 1;
    }
    Ok(cmds)
}

pub open spec fn is_ascii_alphanumeric(c: char) -> bool {
    ('a' <= c && c <= 'z') || ('A' <= c && c <= 'Z') || ('0' <= c && c <= '9')
}

/// Relies on `rand`'s `Alphanumeric` distribution: `len` characters drawn from
/// the ASCII letters and digits with the thread-local generator.
#[verifier::external_body]
fn random_alphanumeric(len: usize) -> (r: String)
    ensures
        r@.len() == len,
        forall|i: int| 0 <= i < r@.len() ==> is_ascii_alphanumeric(#[trigger] r@[i]),
{
    Alphanumeric.sample_string(&mut rand::rng(), len)
}

/// A temporary workspace name: `tmp-` and six ASCII letters or digits.
pub open spec fn is_temp_name(s: Seq<char>) -> bool {
    s.len() == 10 && s.take(4) == "tmp-"@ && forall|i: int| 4 <= i < 10 ==> is_ascii_alphanumeric(
        #[trigger] s[i],
    )
}

/// Plans Swap-Group through a fresh random temporary name.
pub fn swap_workspace_groups(config: &Config, workspaces: &Vec<WorkspaceInfo>, active_monitors: &Vec<String>, from_index: i32, to: &str, monitor_group: Option<&str>) -> (r: Result<Vec<Command>, EngineError>)
    ensures
        exists|temp: Seq<char>|
            is_temp_name(temp) && follows(
                r,
                swap_plan(
                    *config,
                    workspaces@,
                    strings(active_monitors@),
                    from_index as int,
                    to@,
                    match monitor_group {
                        Some(n) => Some(n@),
                        None => None,
                    },
                    temp,
                ),
            ),
{
    let mut temp = String::from_str("tmp-");
    proof {
        reveal_strlit("tmp-");
    }
    let suffix = random_alphanumeric(6);
    temp.append(suffix.as_str());
    assert(temp@.take(4) =~= "tmp-"@);
    let r = plan_swap(config, workspaces, active_monitors, from_index, to, monitor_group, temp.as_str());
    assert(is_temp_name(temp@));
    r
}

} // verus!
