use workspace_colours::colour::{Colour, Palette, Rgb, SidebarStyle};
use workspace_colours::paint::{paint_sidebar_row, Buffer, Cell, Rect, UNDERLINED};
use workspace_colours::allocator::Tab;
use workspace_colours::world::{
    is_listed, owning_tab_colour, resolve_agent, tab_focused, tabs_of, theme_pool, unlisted, unopened,
    workspace_row_selected,
    DefaultColourKind, EndpointAgents, HostEvent, HostTheme, SnapshotAgent, SnapshotTab, SnapshotWorkspace,
};

#[test]
fn new_workspaces_prefer_unused_themes() {
    assert_eq!(theme_pool(&vec![0, 2], 4), vec![1, 3]);
    assert_eq!(theme_pool(&vec![0, 1, 2], 3), vec![0, 1, 2]);
    assert!(theme_pool(&vec![], 0).is_empty());
}

#[test]
fn tabs_belong_to_their_workspace() {
    let tab = |w: &str, t: &str| SnapshotTab { workspace_id: w.into(), tab_id: t.into(), focused: t == "tab_3" };
    let tabs = vec![tab("ws_1", "tab_1"), tab("ws_2", "tab_2"), tab("ws_1", "tab_3")];
    assert_eq!(tabs_of(&tabs, &"ws_1".to_string()), vec!["tab_1".to_string(), "tab_3".to_string()]);
    assert!(tabs_of(&tabs, &"ws_3".to_string()).is_empty());
    assert!(tab_focused(&tabs, &"tab_3".to_string()));
    assert!(!tab_focused(&tabs, &"tab_1".to_string()));
    let listed = vec!["ws_1".to_string()];
    assert!(is_listed(&listed, &"ws_1".to_string()));
    assert!(!is_listed(&listed, &"ws_2".to_string()));
}

#[test]
fn host_reports_update_colours_and_say_when_they_changed() {
    let mut host = HostTheme { foreground: None, background: None, palette: [None; 256] };
    let bg = HostEvent::DefaultColour { kind: DefaultColourKind::Background, colour: Rgb([24, 27, 32]) };
    assert!(host.update_host(&bg));
    assert_eq!(host.background, Some(Rgb([24, 27, 32])));
    assert!(!host.update_host(&bg));
    assert!(!host.update_host(&HostEvent::Other));
    let entries = HostEvent::PaletteColours { colours: vec![(3, Rgb([1, 2, 3])), (3, Rgb([4, 5, 6]))] };
    assert!(host.update_host(&entries));
    assert_eq!(host.palette[3], Some(Rgb([4, 5, 6])));
    assert!(!host.update_host(&entries));
    assert_eq!(host.defaults(), None);
    let fg = HostEvent::DefaultColour { kind: DefaultColourKind::Foreground, colour: Rgb([214, 217, 224]) };
    assert!(host.update_host(&fg));
    assert_eq!(host.foreground, Some(Rgb([214, 217, 224])));
    assert_eq!(host.defaults(), Some((Rgb([24, 27, 32]), Rgb([214, 217, 224]))));
}

fn agent(pane: &str, ws: &str, tab: &str, focused: bool) -> SnapshotAgent {
    SnapshotAgent { pane_id: pane.into(), workspace_id: ws.into(), tab_id: tab.into(), focused }
}

#[test]
fn workspace_colours_agents_match_owning_tabs_across_endpoints() {
    let active = vec![agent("pane_1", "ws_1", "tab_1", true)];
    let remote = "ssh-0123".to_string();
    let endpoints = vec![
        EndpointAgents { endpoint_id: remote.clone(), agents: Some(vec![agent("pane_1", "ws_1", "tab_1", true)]) },
        EndpointAgents { endpoint_id: "silent".into(), agents: None },
    ];
    let local = "local".to_string();
    let here = resolve_agent(&local, &active, &endpoints, &local, &"pane_1".to_string()).expect("active agent");
    assert_eq!((here.workspace_id.as_str(), here.tab_id.as_str(), here.selected), ("ws_1", "tab_1", true));
    let there = resolve_agent(&local, &active, &endpoints, &remote, &"pane_1".to_string()).expect("remote agent");
    assert_eq!((there.workspace_id.as_str(), there.tab_id.as_str(), there.selected), ("ws_1", "tab_1", false));
    assert!(resolve_agent(&local, &active, &endpoints, &"silent".to_string(), &"pane_1".to_string()).is_none());
    assert!(resolve_agent(&local, &active, &endpoints, &"gone".to_string(), &"pane_1".to_string()).is_none());
    assert!(resolve_agent(&local, &active, &endpoints, &local, &"pane_9".to_string()).is_none());
    let tabs = vec![Tab { id: "tab_0".into(), colour: 3 }, Tab { id: "tab_1".into(), colour: 7 }, Tab { id: "tab_1".into(), colour: 9 }];
    assert_eq!(owning_tab_colour(&tabs, &"tab_1".to_string()), Some(7));
    assert_eq!(owning_tab_colour(&tabs, &"tab_2".to_string()), None);
    // Each endpoint's agent row is painted in its owning tab's family style.
    let palette = Palette {
        text: Colour::Rgb(205, 214, 244),
        accent: Colour::Rgb(137, 180, 250),
        mauve: Colour::Rgb(203, 166, 247),
        green: Colour::Rgb(166, 227, 161),
        yellow: Colour::Rgb(249, 226, 175),
        red: Colour::Rgb(243, 139, 168),
        blue: Colour::Rgb(137, 180, 250),
        teal: Colour::Rgb(148, 226, 213),
        peach: Colour::Rgb(250, 179, 135),
        overlay0: Colour::Rgb(108, 112, 134),
        panel_bg: Colour::Rgb(30, 30, 46),
        sidebar_bg: Colour::Reset,
        active_row_bg: Colour::Rgb(49, 50, 68),
    };
    let families = [
        SidebarStyle { background: Rgb([30, 30, 46]), selected: Rgb([60, 40, 50]), title: Rgb([240, 200, 210]), detail: Rgb([190, 160, 170]) },
        SidebarStyle { background: Rgb([30, 30, 46]), selected: Rgb([40, 60, 50]), title: Rgb([200, 240, 210]), detail: Rgb([160, 190, 170]) },
    ];
    let styles = |colour: usize| families[usize::from(colour == 9)];
    for target in [&here, &there] {
        let colour = owning_tab_colour(&tabs, &target.tab_id).expect("owning tab");
        let family = styles(colour);
        let mut buffer = Buffer {
            area: Rect { x: 0, y: 0, width: 30, height: 5 },
            content: (0..150)
                .map(|k| {
                    let (symbol, fg, modifier) = match k {
                        0 => ("●", palette.yellow, 0),
                        1 => (" ", palette.yellow, 0),
                        2..=9 => ("r", palette.text, UNDERLINED),
                        30..=40 => ("c", palette.overlay0, UNDERLINED),
                        _ => (" ", Colour::Reset, 0),
                    };
                    Cell { symbol: symbol.into(), fg, bg: Colour::Reset, modifier, skip: false }
                })
                .collect(),
        };
        paint_sidebar_row(&mut buffer, Rect { x: 0, y: 0, width: 30, height: 5 }, family, target.selected, &palette, &vec![]);
        assert!(buffer.content.iter().any(|c| c.fg == family.title.color()));
        assert!(buffer.content.iter().any(|c| c.fg == palette.yellow && c.symbol != " "));
        assert!(!buffer.content.iter().any(|c| c.modifier & UNDERLINED != 0));
        assert_eq!(buffer.content[1].fg, family.title.color());
    }
}

#[test]
fn workspace_rows_are_selected_by_navigation_or_focus_on_the_active_endpoint() {
    let workspaces = vec![SnapshotWorkspace { workspace_id: "ws_1".into(), focused: true }];
    let (local, remote, ws) = ("local".to_string(), "remote".to_string(), "ws_1".to_string());
    assert!(workspace_row_selected(&None, &local, &ws, &workspaces, &local));
    assert!(!workspace_row_selected(&None, &remote, &ws, &workspaces, &local));
    let nav = Some((remote.clone(), ws.clone()));
    assert!(workspace_row_selected(&nav, &remote, &ws, &workspaces, &local));
    assert!(!workspace_row_selected(&None, &local, &"ws_2".to_string(), &workspaces, &local));
}

fn ids(v: &[&str]) -> Vec<String> {
    v.iter().map(|s| s.to_string()).collect()
}

#[test]
fn stored_workspaces_follow_the_listing() {
    let stored = ids(&["ws_3", "ws_1", "ws_9"]);
    let listed = ids(&["ws_1", "ws_2", "ws_4", "ws_2", "ws_3"]);
    assert_eq!(unlisted(&stored, &listed), ids(&["ws_9"]));
    assert_eq!(unopened(&stored, &listed), ids(&["ws_2", "ws_4"]));
    assert!(unlisted(&stored, &stored).is_empty());
    assert!(unopened(&stored, &stored).is_empty());
    assert_eq!(unlisted(&stored, &vec![]), stored);
    assert_eq!(unopened(&vec![], &listed), ids(&["ws_1", "ws_2", "ws_4", "ws_3"]));
}

#[test]
fn focus_never_changes_a_workspaces_tabs() {
    let tab = |w: &str, t: &str, focused: bool| SnapshotTab { workspace_id: w.into(), tab_id: t.into(), focused };
    let before = vec![tab("ws_1", "tab_1", true), tab("ws_1", "tab_2", false), tab("ws_2", "tab_3", true)];
    let after = vec![tab("ws_1", "tab_1", false), tab("ws_1", "tab_2", true), tab("ws_2", "tab_3", false)];
    for ws in ["ws_1", "ws_2"] {
        assert_eq!(tabs_of(&before, &ws.to_string()), tabs_of(&after, &ws.to_string()));
    }
}
