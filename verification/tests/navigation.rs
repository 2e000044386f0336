use vault_watch::monitor::{FocusedPanel, ViewMode};
use vault_watch::navigation::{
    next_focus, panel_at, previous_focus, KeyCodeInput, KeyInput, KeyOutcome, MouseInput,
    NavigationState, PanelRect,
};

fn key(code: KeyCodeInput) -> KeyInput {
    KeyInput {
        code,
        control: false,
    }
}

#[test]
fn quit_refresh_and_view_toggle_keys() {
    let mut state = NavigationState::new();
    assert_eq!(state.handle_key(key(KeyCodeInput::Char('q')), false, 0), KeyOutcome::Quit);
    assert_eq!(
        state.handle_key(
            KeyInput {
                code: KeyCodeInput::Char('c'),
                control: true
            },
            false,
            0
        ),
        KeyOutcome::Quit
    );
    assert_eq!(state.handle_key(key(KeyCodeInput::Char('c')), false, 0), KeyOutcome::Continue);
    assert_eq!(state.handle_key(key(KeyCodeInput::Char('r')), false, 0), KeyOutcome::Refresh);
    assert_eq!(state.handle_key(key(KeyCodeInput::Char('g')), false, 0), KeyOutcome::Continue);
    assert_eq!(state.view_mode, ViewMode::Graph);
    state.handle_key(key(KeyCodeInput::Char('g')), false, 0);
    assert_eq!(state.view_mode, ViewMode::Table);
    assert_eq!(state, NavigationState::new());
}

#[test]
fn tab_cycles_graphs_and_includes_array_graph_only_when_visible() {
    assert_eq!(next_focus(ViewMode::Table, FocusedPanel::DiskTable, false), FocusedPanel::SmartDetails);
    assert_eq!(next_focus(ViewMode::Table, FocusedPanel::SmartDetails, false), FocusedPanel::DiskTable);
    assert_eq!(next_focus(ViewMode::Graph, FocusedPanel::WriteGraph, true), FocusedPanel::RaidGraph);
    assert_eq!(next_focus(ViewMode::Graph, FocusedPanel::WriteGraph, false), FocusedPanel::TempGraph);
    assert_eq!(next_focus(ViewMode::Graph, FocusedPanel::DiskTable, false), FocusedPanel::TempGraph);
    assert_eq!(previous_focus(ViewMode::Graph, FocusedPanel::TempGraph, true), FocusedPanel::RaidGraph);
    assert_eq!(previous_focus(ViewMode::Graph, FocusedPanel::TempGraph, false), FocusedPanel::WriteGraph);

    let mut state = NavigationState::new();
    state.handle_key(key(KeyCodeInput::Char('g')), false, 0);
    state.handle_key(key(KeyCodeInput::Tab), false, 0);
    assert_eq!(state.focused_panel, FocusedPanel::TempGraph);
    for panel in [FocusedPanel::ReadGraph, FocusedPanel::WriteGraph, FocusedPanel::TempGraph] {
        state.handle_key(key(KeyCodeInput::Tab), false, 0);
        assert_eq!(state.focused_panel, panel);
    }
    state.handle_key(key(KeyCodeInput::BackTab), true, 0);
    assert_eq!(state.focused_panel, FocusedPanel::RaidGraph);
    state.handle_key(key(KeyCodeInput::Tab), true, 0);
    assert_eq!(state.focused_panel, FocusedPanel::TempGraph);
}

#[test]
fn scrolling_stops_at_the_top_and_end_jumps_to_the_last_row() {
    let mut state = NavigationState::new();
    state.handle_key(key(KeyCodeInput::Up), false, 3);
    assert_eq!(state.disk_table_scroll, 0);
    state.handle_key(key(KeyCodeInput::Char('j')), false, 3);
    state.handle_key(key(KeyCodeInput::PageDown), false, 3);
    assert_eq!(state.disk_table_scroll, 6);
    state.handle_key(key(KeyCodeInput::PageUp), false, 3);
    assert_eq!(state.disk_table_scroll, 1);
    state.handle_key(key(KeyCodeInput::End), false, 3);
    assert_eq!(state.disk_table_scroll, 2);
    state.handle_key(key(KeyCodeInput::Tab), false, 3);
    state.handle_key(key(KeyCodeInput::End), false, 3);
    assert_eq!(state.smart_details_scroll, 5);
    state.handle_key(key(KeyCodeInput::Home), false, 3);
    assert_eq!(state.smart_details_scroll, 0);
    assert_eq!(state.disk_table_scroll, 2);
    state.handle_key(key(KeyCodeInput::End), false, 0);
    assert_eq!(state.smart_details_scroll, 0);
}

#[test]
fn wheel_scrolls_the_panel_under_the_pointer_and_click_focuses_it() {
    let mut state = NavigationState::new();
    state.handle_mouse(MouseInput::ScrollDown, Some(FocusedPanel::ReadGraph));
    assert_eq!(state.graph_scroll, 3);
    assert_eq!(state.disk_table_scroll, 0);
    state.handle_mouse(MouseInput::ScrollDown, None);
    assert_eq!(state.disk_table_scroll, 3);
    state.handle_mouse(MouseInput::ScrollUp, Some(FocusedPanel::ReadGraph));
    state.handle_mouse(MouseInput::ScrollUp, Some(FocusedPanel::ReadGraph));
    assert_eq!(state.graph_scroll, 0);
    state.handle_mouse(MouseInput::LeftDown, None);
    assert_eq!(state.focused_panel, FocusedPanel::DiskTable);
    state.handle_mouse(MouseInput::LeftDown, Some(FocusedPanel::SmartDetails));
    assert_eq!(state.focused_panel, FocusedPanel::SmartDetails);
}

#[test]
fn panel_lookup_uses_half_open_rectangles() {
    let rects = [
        (
            FocusedPanel::DiskTable,
            PanelRect {
                x: 0,
                y: 0,
                width: 10,
                height: 5,
            },
        ),
        (
            FocusedPanel::SmartDetails,
            PanelRect {
                x: 0,
                y: 5,
                width: 10,
                height: 5,
            },
        ),
    ];
    assert_eq!(panel_at(&rects, 0, 0), Some(FocusedPanel::DiskTable));
    assert_eq!(panel_at(&rects, 9, 4), Some(FocusedPanel::DiskTable));
    assert_eq!(panel_at(&rects, 9, 5), Some(FocusedPanel::SmartDetails));
    assert_eq!(panel_at(&rects, 10, 5), None);
    assert_eq!(panel_at(&rects, 3, 10), None);
    let edge = [(
        FocusedPanel::TempGraph,
        PanelRect {
            x: u16::MAX - 1,
            y: u16::MAX - 1,
            width: 10,
            height: 10,
        },
    )];
    assert_eq!(panel_at(&edge, u16::MAX, u16::MAX), Some(FocusedPanel::TempGraph));
}
