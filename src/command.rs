//! Commands for the compositor, and their textual form.
use crate::text::{push_char, push_decimal, signed_decimal};
use crate::workspace_id::{encode, WorkspaceId};
use vstd::prelude::*;
use vstd::string::StringExecFns;

verus! {

/// One command of the compositor.
#[derive(Debug, Clone)]
pub enum Command {
    /// Assigns a workspace to an output.
    AssignOutput { workspace: String, output: String },
    /// Shows and focuses a workspace, creating it if needed.
    Focus { workspace: String },
    /// Renames a workspace.
    Rename { from: String, to: String },
    /// Moves the focused container to a workspace.
    MoveContainer { workspace: String },
    /// Moves the container with the given id to a workspace.
    MoveContainerById { container: i64, workspace: String },
    /// Focuses a workspace and moves it to an output.
    MoveWorkspaceToOutput { workspace: String, output: String },
}

/// The mathematical content of a command.
pub enum CommandView {
    AssignOutput(Seq<char>, Seq<char>),
    Focus(Seq<char>),
    Rename(Seq<char>, Seq<char>),
    MoveContainer(Seq<char>),
    MoveContainerById(int, Seq<char>),
    MoveWorkspaceToOutput(Seq<char>, Seq<char>),
}

impl View for Command {
    type V = CommandView;

    open spec fn view(&self) -> CommandView {
        match self {
            Command::AssignOutput { workspace, output } => CommandView::AssignOutput(
                workspace@,
                output@,
            ),
            Command::Focus { workspace } => CommandView::Focus(workspace@),
            Command::Rename { from, to } => CommandView::Rename(from@, to@),
            Command::MoveContainer { workspace } => CommandView::MoveContainer(workspace@),
            Command::MoveContainerById { container, workspace } => CommandView::MoveContainerById(
                *container as int,
                workspace@,
            ),
            Command::MoveWorkspaceToOutput { workspace, output } =>
                CommandView::MoveWorkspaceToOutput(workspace@, output@),
        }
    }
}

/// The views of a sequence of commands.
pub open spec fn views(cs: Seq<Command>) -> Seq<CommandView> {
    cs.map_values(|c: Command| c@)
}

pub open spec fn quoted(s: Seq<char>) -> Seq<char> {
    seq!['"'] + s + seq!['"']
}

/// The compositor's text for a command.
pub open spec fn render(c: CommandView) -> Seq<char> {
    match c {
        CommandView::AssignOutput(w, o) => "workspace "@ + w + " output "@ + o,
        CommandView::Focus(w) => "workspace "@ + w,
        CommandView::Rename(f, t) => "rename workspace "@ + quoted(f) + " to "@ + quoted(t),
        CommandView::MoveContainer(w) => "move container to workspace "@ + w,
        CommandView::MoveContainerById(id, w) => "[con_id="@ + quoted(signed_decimal(id))
            + "] move container to workspace "@ + w,
        CommandView::MoveWorkspaceToOutput(w, o) => "workspace "@ + quoted(w)
            + "; move workspace to output "@ + quoted(o),
    }
}

/// The commands' texts joined by `"; "`.
pub open spec fn render_all(cs: Seq<CommandView>) -> Seq<char>
    decreases cs.len(),
{
    if cs.len() == 0 {
        Seq::empty()
    } else if cs.len() == 1 {
        render(cs[0])
    } else {
        render_all(cs.drop_last()) + "; "@ + render(cs.last())
    }
}

fn push_quoted(out: &mut String, s: &str)
    ensures
        final(out)@ == old(out)@ + quoted(s@),
{
    push_char(out, '"');
    out.append(s);
    push_char(out, '"');
    assert(final(out)@ =~= old(out)@ + quoted(s@));
}

fn push_i64(out: &mut String, v: i64)
    ensures
        final(out)@ == old(out)@ + signed_decimal(v as int),
{
    if v < 0 {
        push_char(out, '-');
        let m = (-(v as i128)) as u64;
        push_decimal(out, m);
        assert(final(out)@ =~= old(out)@ + signed_decimal(v as int));
    } else {
        push_decimal(out, v as u64);
    }
}

impl Command {
    /// Appends the command's text.
    pub fn push_text(&self, out: &mut String)
        ensures
            final(out)@ == old(out)@ + render(self@),
    {
        let ghost start = out@;
        match self {
            Command::AssignOutput { workspace, output } => {
                out.append("workspace ");
                out.append(workspace.as_str());
                out.append(" output ");
                out.append(output.as_str());
            },
            Command::Focus { workspace } => {
                out.append("workspace ");
                out.append(workspace.as_str());
            },
            Command::Rename { from, to } => {
                out.append("rename workspace ");
                push_quoted(out, from.as_str());
                out.append(" to ");
                push_quoted(out, to.as_str());
            },
            Command::MoveContainer { workspace } => {
                out.append("move container to workspace ");
                out.append(workspace.as_str());
            },
            Command::MoveContainerById { container, workspace } => {
                out.append("[con_id=");
                let ghost before = out@;
                push_char(out, '"');
                push_i64(out, *container);
                push_char(out, '"');
                assert(out@ =~= before + quoted(signed_decimal(*container as int)));
                out.append("] move container to workspace ");
                out.append(workspace.as_str());
            },
            Command::MoveWorkspaceToOutput { workspace, output } => {
                out.append("workspace ");
                push_quoted(out, workspace.as_str());
                out.append("; move workspace to output ");
                push_quoted(out, output.as_str());
            },
        }
        assert(out@ =~= start + render(self@));
    }

    /// The command's text.
    pub fn render(&self) -> (r: String)
        ensures
            r@ == render(self@),
    {
        let mut out = String::new();
        self.push_text(&mut out);
        assert(out@ =~= render(self@));
        out
    }
}

/// All the commands as one compound command, joined by `"; "`.
pub fn render_commands(commands: &Vec<Command>) -> (r: String)
    ensures
        r@ == render_all(views(commands@)),
{
    let mut out = String::new();
    let mut i: usize = 0;
    while i < commands.len()
        invariant
            0 <= i <= commands.len(),
            out@ == render_all(views(commands@).take(i as int)),
        decreases commands.len() - i,
    {
        let ghost before = out@;
        if i > 0 {
            out.append("; ");
        }
        commands[i].push_text(&mut out);
        proof {
            let vs = views(commands@);
            assert(vs.take(i + 1).drop_last() =~= vs.take(i as int));
            assert(vs.take(i + 1).last() == commands@[i as int]@);
            if i == 0 {
                assert(out@ =~= render_all(vs.take(1)));
            }
        }
        i += 1;
    }
    assert(views(commands@).take(commands.len() as int) =~= views(commands@));
    out
}

/// The compound command that assigns a workspace to a monitor and shows it there.
pub fn get_assign_and_focus_workspace_command(workspace_id: &WorkspaceId, monitor: &str) -> (r:
    String)
    ensures
        r@ == render(CommandView::AssignOutput(encode(workspace_id@), monitor@)) + "; "@ + render(
            CommandView::Focus(encode(workspace_id@)),
        ),
{
    let name = workspace_id.to_string();
    let mut out = String::from_str("workspace ");
    out.append(name.as_str());
    out.append(" output ");
    out.append(monitor);
    out.append("; ");
    out.append("workspace ");
    out.append(name.as_str());
    out
}

/// The command that shows and focuses a workspace.
pub fn get_focus_workspace_command(workspace_id: &WorkspaceId) -> (r: String)
    ensures
        r@ == render(CommandView::Focus(encode(workspace_id@))),
{
    let name = workspace_id.to_string();
    let mut out = String::from_str("workspace ");
    out.append(name.as_str());
    out
}

} // verus!
