use mumowrk::snapshot::WorkspaceInfo;
use mumowrk::state::{format_state, get_state, GroupState, Profile, WorkspacesState};

fn ws(name: &str, visible: bool, focused: bool) -> WorkspaceInfo {
    WorkspaceInfo { name: name.to_string(), visible, focused, output: "DP-1".to_string(), containers: vec![] }
}

fn sample() -> Vec<WorkspaceInfo> {
    vec![
        ws("web", true, false),
        ws("side-0-5", true, false),
        ws("main-0-2", true, false),
        ws("main-1-2", true, true),
        ws("main-0-1", false, false),
        ws("notes", false, false),
    ]
}

#[test]
fn state_groups_and_sorts() {
    let st = get_state(&sample());
    assert_eq!(st.unmanaged, vec![("web".to_string(), false), ("notes".to_string(), false)]);
    assert_eq!(st.managed.len(), 2);
    assert_eq!(st.managed[0].name, "main");
    assert_eq!(st.managed[0].indices, vec![(1, false), (2, true)]);
    assert!(st.managed[0].focused);
    assert_eq!(st.managed[1].name, "side");
    assert_eq!(st.managed[1].indices, vec![(5, true)]);
    assert!(!st.managed[1].focused);
}

#[test]
fn plain_rendering() {
    let st = get_state(&sample());
    assert_eq!(format_state(&st, Profile::Plain), "Unmanaged: web, notes | *main*: 1, *2* | side: *5*");
}

#[test]
fn rich_rendering() {
    let st = get_state(&sample());
    assert_eq!(
        format_state(&st, Profile::Rich),
        "(web, notes) | [ <u>main</u>: 1, <u><b>2</b></u> | side: <u><b>5</b></u> ]"
    );
}

#[test]
fn rendering_without_unmanaged_workspaces() {
    let st = WorkspacesState {
        managed: vec![GroupState { name: "main".to_string(), indices: vec![(-1, true)], focused: false }],
        unmanaged: vec![],
    };
    assert_eq!(format_state(&st, Profile::Plain), "main: *-1*");
    assert_eq!(format_state(&st, Profile::Rich), "[ main: <u><b>-1</b></u> ]");
    let empty = WorkspacesState { managed: vec![], unmanaged: vec![("web".to_string(), true)] };
    assert_eq!(format_state(&empty, Profile::Plain), "Unmanaged: *web* | ");
}

#[test]
fn state_lists_each_group_and_index_once_with_first_visibility() {
    let w = vec![
        ws("main-0-7", false, false),
        ws("side-0-1", true, true),
        ws("main-1-7", true, false),
        ws("main-2-3", true, false),
        ws("side-1-1", false, false),
    ];
    let st = get_state(&w);
    assert_eq!(st.managed.len(), 2);
    assert_eq!(st.managed[0].name, "main");
    assert_eq!(st.managed[0].indices, vec![(3, true), (7, false)]);
    assert!(!st.managed[0].focused);
    assert_eq!(st.managed[1].name, "side");
    assert_eq!(st.managed[1].indices, vec![(1, true)]);
    assert!(st.managed[1].focused);
    assert!(st.unmanaged.is_empty());
    assert_eq!(format_state(&st, Profile::Rich), "[ main: <u><b>3</b></u>, 7 | <u>side</u>: <u><b>1</b></u> ]");
}

#[test]
fn rich_text_of_one_group_and_one_unmanaged_workspace() {
    let w = vec![ws("music", true, false), ws("main-0-1", true, true)];
    assert_eq!(format_state(&get_state(&w), Profile::Rich), "(music) | [ <u>main</u>: <u><b>1</b></u> ]");
}
