//! A snapshot of the compositor's workspaces, as one query reports them.
use crate::text::{push_signed_decimal, signed_decimal, str_eq};
use crate::workspace_id::{decode, WorkspaceId};
use vstd::prelude::*;
use vstd::string::{StrSliceExecFns, StringExecFns};

verus! {

/// One workspace as the compositor reports it.
#[derive(Debug, Clone)]
pub struct WorkspaceInfo {
    pub name: String,
    /// Shown on an active output.
    pub visible: bool,
    pub focused: bool,
    /// Name of the output that hosts it.
    pub output: String,
    /// Identifiers of its top-level containers.
    pub containers: Vec<i64>,
}

/// Whether `w` is a visible workspace whose name decodes to an identifier of `group`.
pub open spec fn is_visible_in(w: WorkspaceInfo, group: Seq<char>) -> bool {
    w.visible && decode(w.name@) is Some && decode(w.name@)->0.group == group
}

/// Position of the first visible workspace of `group` at or after `i`, or `ws.len()`.
pub open spec fn visible_position(ws: Seq<WorkspaceInfo>, group: Seq<char>, i: int) -> int
    decreases ws.len() - i,
{
    if i < 0 || i >= ws.len() {
        ws.len() as int
    } else if is_visible_in(ws[i], group) {
        i
    } else {
        visible_position(ws, group, i + 1)
    }
}

/// Index of the workspace group that `group` currently shows: that of its first
/// visible managed workspace.
pub open spec fn current_index(ws: Seq<WorkspaceInfo>, group: Seq<char>) -> Option<int> {
    let p = visible_position(ws, group, 0);
    if 0 <= p < ws.len() {
        Some(decode(ws[p].name@)->0.index)
    } else {
        None
    }
}

/// Position of the first focused workspace at or after `i`, or `ws.len()`.
pub open spec fn focused_position(ws: Seq<WorkspaceInfo>, i: int) -> int
    decreases ws.len() - i,
{
    if i < 0 || i >= ws.len() {
        ws.len() as int
    } else if ws[i].focused {
        i
    } else {
        focused_position(ws, i + 1)
    }
}

/// The focused workspace, if any reports focus.
pub open spec fn focused(ws: Seq<WorkspaceInfo>) -> Option<WorkspaceInfo> {
    let p = focused_position(ws, 0);
    if 0 <= p < ws.len() {
        Some(ws[p])
    } else {
        None
    }
}

proof fn lemma_visible_position(ws: Seq<WorkspaceInfo>, group: Seq<char>, i: int, j: int)
    requires
        0 <= i <= j <= ws.len(),
        j < ws.len() ==> is_visible_in(ws[j], group),
        forall|k: int| i <= k < j ==> !is_visible_in(ws[k], group),
    ensures
        visible_position(ws, group, i) == j,
    decreases j - i,
{
    if i < j {
        lemma_visible_position(ws, group, i + 1, j);
    }
}

proof fn lemma_focused_position(ws: Seq<WorkspaceInfo>, i: int, j: int)
    requires
        0 <= i <= j <= ws.len(),
        j < ws.len() ==> ws[j].focused,
        forall|k: int| i <= k < j ==> !ws[k].focused,
    ensures
        focused_position(ws, i) == j,
    decreases j - i,
{
    if i < j {
        lemma_focused_position(ws, i + 1, j);
    }
}

/// Index of the workspace group shown by `monitor_group`, if one of its managed
/// workspaces is visible.
pub fn find_current_index(workspaces: &Vec<WorkspaceInfo>, monitor_group: &str) -> (r: Option<i32>)
    ensures
        match current_index(workspaces@, monitor_group@) {
            Some(i) => r is Some && r->0 as int == i,
            None => r is None,
        },
{
    let mut i: usize = 0;
    while i < workspaces.len()
        invariant
            0 <= i <= workspaces.len(),
            forall|k: int| 0 <= k < i ==> !is_visible_in(#[trigger] workspaces@[k], monitor_group@),
        decreases workspaces.len() - i,
    {
        let w = &workspaces[i];
        if w.visible {
            match WorkspaceId::parse_safe(w.name.as_str()) {
                Some(id) => {
                    if str_eq(id.get_monitor_group_name(), monitor_group) {
                        proof {
                            lemma_visible_position(workspaces@, monitor_group@, 0, i as int);
                        }
                        return Some(id.get_index());
                    }
                },
                None => {},
            }
        }
        i += 1;
    }
    proof {
        lemma_visible_position(workspaces@, monitor_group@, 0, i as int);
    }
    None
}

/// Position of the focused workspace, if any reports focus.
pub fn find_focused_workspace(workspaces: &Vec<WorkspaceInfo>) -> (r: Option<usize>)
    ensures
        r is Some <==> focused(workspaces@) is Some,
        r is Some ==> r->0 < workspaces@.len() && workspaces@[r->0 as int] == focused(
            workspaces@,
        )->0,
{
    let mut i: usize = 0;
    while i < workspaces.len()
        invariant
            0 <= i <= workspaces.len(),
            forall|k: int| 0 <= k < i ==> !(#[trigger] workspaces@[k]).focused,
        decreases workspaces.len() - i,
    {
        if workspaces[i].focused {
            proof {
                lemma_focused_position(workspaces@, 0, i as int);
            }
            return Some(i);
        }
        i += 1;
    }
    proof {
        lemma_focused_position(workspaces@, 0, i as int);
    }
    None
}

/// The index `monitor_group` currently shows, as text, or `?` when none of its
/// managed workspaces is visible.
pub fn get_current_index(workspaces: &Vec<WorkspaceInfo>, monitor_group: &str) -> (r: String)
    ensures
        r@ == match current_index(workspaces@, monitor_group@) {
            Some(i) => signed_decimal(i),
            None => "?"@,
        },
{
    match find_current_index(workspaces, monitor_group) {
        Some(i) => {
            let mut out = String::new();
            push_signed_decimal(&mut out, i);
            assert(out@ =~= signed_decimal(i as int));
            out
        },
        None => String::from_str("?"),
    }
}

/// One output as the compositor reports it.
#[derive(Debug, Clone)]
pub struct OutputInfo {
    pub name: String,
    pub make: String,
    pub model: String,
    pub serial: String,
    pub active: bool,
}

/// The descriptor of an output: make, model and serial number (`Unknown` when
/// empty), separated by spaces.
pub open spec fn descriptor(o: OutputInfo) -> Seq<char> {
    o.make@ + " "@ + o.model@ + " "@ + if o.serial@.len() == 0 {
        "Unknown"@
    } else {
        o.serial@
    }
}

/// Returns the descriptor of an output.
pub fn get_output_descriptor(output: &OutputInfo) -> (r: String)
    ensures
        r@ == descriptor(*output),
{
    let mut out = output.make.clone();
    out.append(" ");
    out.append(output.model.as_str());
    out.append(" ");
    if output.serial.unicode_len() == 0 {
        out.append("Unknown");
    } else {
        out.append(output.serial.as_str());
    }
    assert(out@ =~= descriptor(*output));
    out
}

/// The descriptor of the first active output named `name`, if any.
pub fn get_output_descriptor_by_name(outputs: &Vec<OutputInfo>, name: &str) -> (r: Option<String>)
    ensures
        r is Some <==> exists|k: int| 0 <= k < outputs@.len() && (#[trigger] outputs@[k]).active && outputs@[k].name@ == name@,
        r is Some ==> exists|k: int|
            0 <= k < outputs@.len() && (#[trigger] outputs@[k]).active && outputs@[k].name@ == name@
                && r->0@ == descriptor(outputs@[k]) && forall|j: int| 0 <= j < k ==> !(outputs@[j].active && outputs@[j].name@ == name@),
{
    let mut i: usize = 0;
    while i < outputs.len()
        invariant
            0 <= i <= outputs.len(),
            forall|j: int| 0 <= j < i ==> !(outputs@[j].active && outputs@[j].name@ == name@),
        decreases outputs.len() - i,
    {
        if outputs[i].active && str_eq(outputs[i].name.as_str(), name) {
            return Some(get_output_descriptor(&outputs[i]));
        }
        i += 1;
    }
    None
}

/// The name of the first active output whose descriptor is `descriptor`, if any.
pub fn get_output_name_by_descriptor(outputs: &Vec<OutputInfo>, desc: &str) -> (r: Option<String>)
    ensures
        r is Some <==> exists|k: int| 0 <= k < outputs@.len() && (#[trigger] outputs@[k]).active && descriptor(outputs@[k]) == desc@,
        r is Some ==> exists|k: int|
            0 <= k < outputs@.len() && (#[trigger] outputs@[k]).active && descriptor(outputs@[k]) == desc@
                && r->0@ == outputs@[k].name@ && forall|j: int| 0 <= j < k ==> !(outputs@[j].active && descriptor(outputs@[j]) == desc@),
{
    let mut i: usize = 0;
    while i < outputs.len()
        invariant
            0 <= i <= outputs.len(),
            forall|j: int| 0 <= j < i ==> !(outputs@[j].active && descriptor(outputs@[j]) == desc@),
        decreases outputs.len() - i,
    {
        if outputs[i].active {
            let d = get_output_descriptor(&outputs[i]);
            if str_eq(d.as_str(), desc) {
                return Some(outputs[i].name.clone());
            }
        }
        i += 1;
    }
    None
}

} // verus!
