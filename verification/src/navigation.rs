//! Keyboard and mouse navigation of the dashboard: which view is shown,
//! which panel has the focus, and how far each panel is scrolled. The
//! terminal events are read by the caller and handed over as plain values.
use vstd::prelude::*;

use crate::monitor::{FocusedPanel, ViewMode};

verus! {

/// Lines moved by one page key.
pub const PAGE_SCROLL: usize = 5;

/// Lines moved by one turn of the mouse wheel.
pub const WHEEL_SCROLL: usize = 3;

/// A key as the dashboard sees it.
#[derive(Debug, Clone, Copy, PartialEq, Eq, Structural)]
pub enum KeyCodeInput {
    Char(char),
    Tab,
    BackTab,
    Up,
    Down,
    PageUp,
    PageDown,
    Home,
    End,
    Other,
}

/// A key press: the key and whether Control was held.
#[derive(Debug, Clone, Copy, PartialEq, Eq, Structural)]
pub struct KeyInput {
    pub code: KeyCodeInput,
    pub control: bool,
}

/// What the event loop does after a key press.
#[derive(Debug, Clone, Copy, PartialEq, Eq, Structural)]
pub enum KeyOutcome {
    /// Leave the dashboard.
    Quit,
    /// Ask the collector for an immediate refresh.
    Refresh,
    /// Keep running.
    Continue,
}

/// The mouse events the dashboard reacts to.
#[derive(Debug, Clone, Copy, PartialEq, Eq, Structural)]
pub enum MouseInput {
    ScrollUp,
    ScrollDown,
    LeftDown,
    Other,
}

/// A panel's area on the screen, in terminal cells.
#[derive(Debug, Clone, Copy, PartialEq, Eq, Structural)]
pub struct PanelRect {
    pub x: u16,
    pub y: u16,
    pub width: u16,
    pub height: u16,
}

/// The navigation part of the dashboard's state.
#[derive(Debug, Clone, Copy, PartialEq, Eq, Structural)]
pub struct NavigationState {
    pub view_mode: ViewMode,
    pub focused_panel: FocusedPanel,
    pub disk_table_scroll: usize,
    pub smart_details_scroll: usize,
    pub graph_scroll: usize,
}

/// The panel that Tab moves the focus to. In the table view the two table
/// panels alternate; in the graph view the graphs are cycled, the array
/// graph only while it is shown.
pub open spec fn next_panel(mode: ViewMode, p: FocusedPanel, raid_visible: bool) -> FocusedPanel {
    match mode {
        ViewMode::Table => match p {
            FocusedPanel::DiskTable => FocusedPanel::SmartDetails,
            _ => FocusedPanel::DiskTable,
        },
        ViewMode::Graph => match p {
            FocusedPanel::TempGraph => FocusedPanel::ReadGraph,
            FocusedPanel::ReadGraph => FocusedPanel::WriteGraph,
            FocusedPanel::WriteGraph => if raid_visible {
                FocusedPanel::RaidGraph
            } else {
                FocusedPanel::TempGraph
            },
            _ => FocusedPanel::TempGraph,
        },
    }
}

/// The panel that Shift-Tab moves the focus to.
pub open spec fn previous_panel(mode: ViewMode, p: FocusedPanel, raid_visible: bool) -> FocusedPanel {
    match mode {
        ViewMode::Table => match p {
            FocusedPanel::SmartDetails => FocusedPanel::DiskTable,
            _ => FocusedPanel::SmartDetails,
        },
        ViewMode::Graph => match p {
            FocusedPanel::ReadGraph => FocusedPanel::TempGraph,
            FocusedPanel::WriteGraph => FocusedPanel::ReadGraph,
            FocusedPanel::RaidGraph => FocusedPanel::WriteGraph,
            _ => if raid_visible {
                FocusedPanel::RaidGraph
            } else {
                FocusedPanel::WriteGraph
            },
        },
    }
}

/// The panels that the focus cycles through in a view.
pub open spec fn in_cycle(mode: ViewMode, p: FocusedPanel, raid_visible: bool) -> bool {
    match mode {
        ViewMode::Table => p == FocusedPanel::DiskTable || p == FocusedPanel::SmartDetails,
        ViewMode::Graph => p == FocusedPanel::TempGraph || p == FocusedPanel::ReadGraph
            || p == FocusedPanel::WriteGraph || (raid_visible && p == FocusedPanel::RaidGraph),
    }
}

/// `value + delta`, kept within `0..=usize::MAX`.
pub open spec fn shifted(value: usize, delta: int) -> usize {
    let v: int = value + delta;
    if v < 0 {
        0
    } else if v > usize::MAX {
        usize::MAX
    } else {
        v as usize
    }
}

/// The scroll offsets with the one of panel `p` set to `value`; the graphs
/// share one offset.
pub open spec fn with_scroll(s: NavigationState, p: FocusedPanel, value: usize) -> NavigationState {
    match p {
        FocusedPanel::DiskTable => NavigationState { disk_table_scroll: value, ..s },
        FocusedPanel::SmartDetails => NavigationState { smart_details_scroll: value, ..s },
        _ => NavigationState { graph_scroll: value, ..s },
    }
}

/// The scroll offset of panel `p`.
pub open spec fn scroll_of(s: NavigationState, p: FocusedPanel) -> usize {
    match p {
        FocusedPanel::DiskTable => s.disk_table_scroll,
        FocusedPanel::SmartDetails => s.smart_details_scroll,
        _ => s.graph_scroll,
    }
}

/// The last scroll position of panel `p` when `disks` disks are listed.
pub open spec fn end_position(p: FocusedPanel, disks: nat) -> nat {
    match p {
        FocusedPanel::DiskTable => if disks > 0 {
            (disks - 1) as nat
        } else {
            0
        },
        FocusedPanel::SmartDetails => if disks > 0 {
            (2 * disks - 1) as nat
        } else {
            0
        },
        _ => 0,
    }
}

/// The state after a key press, and what the loop does next.
pub open spec fn key_step(
    s: NavigationState,
    key: KeyInput,
    raid_visible: bool,
    disks: nat,
) -> (NavigationState, KeyOutcome) {
    match key.code {
        KeyCodeInput::Char('q') => (s, KeyOutcome::Quit),
        KeyCodeInput::Char('c') => if key.control {
            (s, KeyOutcome::Quit)
        } else {
            (s, KeyOutcome::Continue)
        },
        KeyCodeInput::Char('r') => (s, KeyOutcome::Refresh),
        KeyCodeInput::Char('g') => (
            NavigationState {
                view_mode: match s.view_mode {
                    ViewMode::Table => ViewMode::Graph,
                    ViewMode::Graph => ViewMode::Table,
                },
                ..s
            },
            KeyOutcome::Continue,
        ),
        KeyCodeInput::Tab => (
            NavigationState {
                focused_panel: next_panel(s.view_mode, s.focused_panel, raid_visible),
                ..s
            },
            KeyOutcome::Continue,
        ),
        KeyCodeInput::BackTab => (
            NavigationState {
                focused_panel: previous_panel(s.view_mode, s.focused_panel, raid_visible),
                ..s
            },
            KeyOutcome::Continue,
        ),
        KeyCodeInput::Up | KeyCodeInput::Char('k') => (
            with_scroll(s, s.focused_panel, shifted(scroll_of(s, s.focused_panel), -1)),
            KeyOutcome::Continue,
        ),
        KeyCodeInput::Down | KeyCodeInput::Char('j') => (
            with_scroll(s, s.focused_panel, shifted(scroll_of(s, s.focused_panel), 1)),
            KeyOutcome::Continue,
        ),
        KeyCodeInput::PageUp => (
            with_scroll(
                s,
                s.focused_panel,
                shifted(scroll_of(s, s.focused_panel), -(PAGE_SCROLL as int)),
            ),
            KeyOutcome::Continue,
        ),
        KeyCodeInput::PageDown => (
            with_scroll(
                s,
                s.focused_panel,
                shifted(scroll_of(s, s.focused_panel), PAGE_SCROLL as int),
            ),
            KeyOutcome::Continue,
        ),
        KeyCodeInput::Home => (with_scroll(s, s.focused_panel, 0), KeyOutcome::Continue),
        KeyCodeInput::End => (
            with_scroll(s, s.focused_panel, end_position(s.focused_panel, disks) as usize),
            KeyOutcome::Continue,
        ),
        _ => (s, KeyOutcome::Continue),
    }
}

/// The state after a mouse event; `under` is the panel under the pointer.
pub open spec fn mouse_step(s: NavigationState, event: MouseInput, under: Option<FocusedPanel>) -> NavigationState {
    let target = match under {
        Some(p) => p,
        None => s.focused_panel,
    };
    match event {
        MouseInput::ScrollUp => with_scroll(
            s,
            target,
            shifted(scroll_of(s, target), -(WHEEL_SCROLL as int)),
        ),
        MouseInput::ScrollDown => with_scroll(
            s,
            target,
            shifted(scroll_of(s, target), WHEEL_SCROLL as int),
        ),
        MouseInput::LeftDown => match under {
            Some(p) => NavigationState { focused_panel: p, ..s },
            None => s,
        },
        MouseInput::Other => s,
    }
}

/// Whether the cell at `col`, `row` lies inside `r`.
pub open spec fn rect_contains(r: PanelRect, col: u16, row: u16) -> bool {
    r.x <= col < r.x + r.width && r.y <= row < r.y + r.height
}

/// The first panel whose area holds the cell, if any.
pub open spec fn panel_at_spec(rects: Seq<(FocusedPanel, PanelRect)>, col: u16, row: u16) -> Option<FocusedPanel>
    decreases rects.len(),
{
    if rects.len() == 0 {
        None
    } else if rect_contains(rects[0].1, col, row) {
        Some(rects[0].0)
    } else {
        panel_at_spec(rects.drop_first(), col, row)
    }
}

impl NavigationState {
    /// The state the dashboard starts in: the table view, with the disk
    /// table focused and nothing scrolled.
    pub fn new() -> (s: Self)
        ensures
            s.view_mode == ViewMode::Table,
            s.focused_panel == FocusedPanel::DiskTable,
            s.disk_table_scroll == 0,
            s.smart_details_scroll == 0,
            s.graph_scroll == 0,
    {
        NavigationState {
            view_mode: ViewMode::Table,
            focused_panel: FocusedPanel::DiskTable,
            disk_table_scroll: 0,
            smart_details_scroll: 0,
            graph_scroll: 0,
        }
    }

    /// Scrolls the focused panel by `delta` lines, never above the top.
    pub fn scroll_focused(&mut self, delta: i64)
        ensures
            *final(self) == with_scroll(
                *old(self),
                old(self).focused_panel,
                shifted(scroll_of(*old(self), old(self).focused_panel), delta as int),
            ),
    {
        let p = self.focused_panel;
        match p {
            FocusedPanel::DiskTable => {
                self.disk_table_scroll = shift(self.disk_table_scroll, delta);
            },
            FocusedPanel::SmartDetails => {
                self.smart_details_scroll = shift(self.smart_details_scroll, delta);
            },
            _ => {
                self.graph_scroll = shift(self.graph_scroll, delta);
            },
        }
    }

    /// Applies a key press. `raid_graph_visible` says whether the array
    /// graph is shown; `disk_count` is the number of disks listed.
    pub fn handle_key(&mut self, key: KeyInput, raid_graph_visible: bool, disk_count: usize) -> (r: KeyOutcome)
        requires
            disk_count <= isize::MAX,
        ensures
            (*final(self), r) == key_step(*old(self), key, raid_graph_visible, disk_count as nat),
    {
        match key.code {
            KeyCodeInput::Char('q') => KeyOutcome::Quit,
            KeyCodeInput::Char('c') => {
                if key.control {
                    KeyOutcome::Quit
                } else {
                    KeyOutcome::Continue
                }
            },
            KeyCodeInput::Char('r') => KeyOutcome::Refresh,
            KeyCodeInput::Char('g') => {
                self.view_mode = match self.view_mode {
                    ViewMode::Table => ViewMode::Graph,
                    ViewMode::Graph => ViewMode::Table,
                };
                KeyOutcome::Continue
            },
            KeyCodeInput::Tab => {
                self.focused_panel = next_focus(self.view_mode, self.focused_panel, raid_graph_visible);
                KeyOutcome::Continue
            },
            KeyCodeInput::BackTab => {
                self.focused_panel = previous_focus(self.view_mode, self.focused_panel, raid_graph_visible);
                KeyOutcome::Continue
            },
            KeyCodeInput::Up | KeyCodeInput::Char('k') => {
                self.scroll_focused(-1);
                KeyOutcome::Continue
            },
            KeyCodeInput::Down | KeyCodeInput::Char('j') => {
                self.scroll_focused(1);
                KeyOutcome::Continue
            },
            KeyCodeInput::PageUp => {
                self.scroll_focused(-5);
                KeyOutcome::Continue
            },
            KeyCodeInput::PageDown => {
                self.scroll_focused(5);
                KeyOutcome::Continue
            },
            KeyCodeInput::Home => {
                match self.focused_panel {
                    FocusedPanel::DiskTable => self.disk_table_scroll = 0,
                    FocusedPanel::SmartDetails => self.smart_details_scroll = 0,
                    _ => self.graph_scroll = 0,
                }
                KeyOutcome::Continue
            },
            KeyCodeInput::End => {
                match self.focused_panel {
                    FocusedPanel::DiskTable => {
                        self.disk_table_scroll = disk_count.saturating_sub(1);
                    },
                    FocusedPanel::SmartDetails => {
                        self.smart_details_scroll = (disk_count * 2).saturating_sub(1);
                    },
                    _ => self.graph_scroll = 0,
                }
                KeyOutcome::Continue
            },
            _ => KeyOutcome::Continue,
        }
    }

    /// Applies a mouse event. The wheel scrolls the panel under the pointer,
    /// or the focused one; a left click focuses the panel under it.
    pub fn handle_mouse(&mut self, event: MouseInput, panel_under: Option<FocusedPanel>)
        ensures
            *final(self) == mouse_step(*old(self), event, panel_under),
    {
        let target = match panel_under {
            Some(p) => p,
            None => self.focused_panel,
        };
        match event {
            MouseInput::ScrollUp => match target {
                FocusedPanel::DiskTable => {
                    self.disk_table_scroll = self.disk_table_scroll.saturating_sub(3);
                },
                FocusedPanel::SmartDetails => {
                    self.smart_details_scroll = self.smart_details_scroll.saturating_sub(3);
                },
                _ => {
                    self.graph_scroll = self.graph_scroll.saturating_sub(3);
                },
            },
            MouseInput::ScrollDown => match target {
                FocusedPanel::DiskTable => {
                    self.disk_table_scroll = self.disk_table_scroll.saturating_add(3);
                },
                FocusedPanel::SmartDetails => {
                    self.smart_details_scroll = self.smart_details_scroll.saturating_add(3);
                },
                _ => {
                    self.graph_scroll = self.graph_scroll.saturating_add(3);
                },
            },
            MouseInput::LeftDown => {
                if let Some(p) = panel_under {
                    self.focused_panel = p;
                }
            },
            MouseInput::Other => {},
        }
    }
}

fn shift(value: usize, delta: i64) -> (r: usize)
    ensures
        r == shifted(value, delta as int),
{
    if delta < 0 {
        let down: u128 = (0 - (delta as i128)) as u128;
        if (value as u128) < down {
            0
        } else {
            ((value as u128) - down) as usize
        }
    } else {
        let sum: u128 = (value as u128) + (delta as u128);
        if sum > (usize::MAX as u128) {
            usize::MAX
        } else {
            sum as usize
        }
    }
}

/// The panel that Tab moves the focus to.
pub fn next_focus(mode: ViewMode, p: FocusedPanel, raid_visible: bool) -> (r: FocusedPanel)
    ensures
        r == next_panel(mode, p, raid_visible),
{
    match mode {
        ViewMode::Table => match p {
            FocusedPanel::DiskTable => FocusedPanel::SmartDetails,
            _ => FocusedPanel::DiskTable,
        },
        ViewMode::Graph => match p {
            FocusedPanel::TempGraph => FocusedPanel::ReadGraph,
            FocusedPanel::ReadGraph => FocusedPanel::WriteGraph,
            FocusedPanel::WriteGraph if raid_visible => FocusedPanel::RaidGraph,
            _ => FocusedPanel::TempGraph,
        },
    }
}

/// The panel that Shift-Tab moves the focus to.
pub fn previous_focus(mode: ViewMode, p: FocusedPanel, raid_visible: bool) -> (r: FocusedPanel)
    ensures
        r == previous_panel(mode, p, raid_visible),
{
    match mode {
        ViewMode::Table => match p {
            FocusedPanel::SmartDetails => FocusedPanel::DiskTable,
            _ => FocusedPanel::SmartDetails,
        },
        ViewMode::Graph => match p {
            FocusedPanel::ReadGraph => FocusedPanel::TempGraph,
            FocusedPanel::WriteGraph => FocusedPanel::ReadGraph,
            FocusedPanel::RaidGraph => FocusedPanel::WriteGraph,
            _ if raid_visible => FocusedPanel::RaidGraph,
            _ => FocusedPanel::WriteGraph,
        },
    }
}

/// The panel whose area holds the cell at `col`, `row`: the first such
/// entry of `rects`, or none.
pub fn panel_at(rects: &[(FocusedPanel, PanelRect)], col: u16, row: u16) -> (r: Option<FocusedPanel>)
    ensures
        r == panel_at_spec(rects@, col, row),
{
    let mut i: usize = 0;
    assert(rects@.subrange(0, rects@.len() as int) =~= rects@);
    while i < rects.len()
        invariant
            i <= rects@.len(),
            panel_at_spec(rects@, col, row) == panel_at_spec(rects@.subrange(i as int, rects@.len() as int), col, row),
        decreases rects@.len() - i,
    {
        let (panel, rect) = rects[i];
        let ghost tail = rects@.subrange(i as int, rects@.len() as int);
        assert(tail.drop_first() =~= rects@.subrange(i + 1, rects@.len() as int));
        if (rect.x as u32) <= (col as u32) && (col as u32) < (rect.x as u32) + (rect.width as u32)
            && (rect.y as u32) <= (row as u32) && (row as u32) < (rect.y as u32) + (rect.height as u32)
        {
            return Some(panel);
        }
        i = i + 1;
    }
    assert(rects@.subrange(i as int, rects@.len() as int).len() == 0);
    None
}

/// Tab followed by Shift-Tab, or Shift-Tab followed by Tab, gives the focus
/// back to the panel it started on, for every panel of the view's cycle;
/// and both keys always land on a panel of the cycle.
pub proof fn lemma_tab_round_trip(mode: ViewMode, p: FocusedPanel, raid_visible: bool)
    ensures
        in_cycle(mode, next_panel(mode, p, raid_visible), raid_visible),
        in_cycle(mode, previous_panel(mode, p, raid_visible), raid_visible),
        in_cycle(mode, p, raid_visible) ==> previous_panel(
            mode,
            next_panel(mode, p, raid_visible),
            raid_visible,
        ) == p,
        in_cycle(mode, p, raid_visible) ==> next_panel(
            mode,
            previous_panel(mode, p, raid_visible),
            raid_visible,
        ) == p,
{
}

/// Switching the view twice brings back the view, the focus and every
/// scroll offset.
pub proof fn lemma_view_toggle_involutive(s: NavigationState, raid_visible: bool, disks: nat)
    ensures
        ({
            let g = KeyInput { code: KeyCodeInput::Char('g'), control: false };
            key_step(key_step(s, g, raid_visible, disks).0, g, raid_visible, disks).0 == s
        }),
{
}

} // verus!
