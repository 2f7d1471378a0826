//! State of the panel editor.
use vstd::prelude::*;

verus! {

/// The kind of widget the editor adds next.
#[derive(Debug, Clone, Copy, PartialEq, Eq, Structural)]
pub enum NewWidgetType {
    Switch,
    ValueBox,
    SelectBox,
    Label,
}

/// Panel editor state.
pub struct PanelEditorState {
    pub editing_panel_index: Option<usize>,
    pub new_widget_type: NewWidgetType,
    pub widget_counter: u32,
}

impl PanelEditorState {
    /// No panel being edited; switches are added next; no widget made yet.
    pub fn new() -> (s: Self)
        ensures
            s.editing_panel_index is None,
            s.new_widget_type == NewWidgetType::Switch,
            s.widget_counter == 0,
    {
        PanelEditorState {
            editing_panel_index: None,
            new_widget_type: NewWidgetType::Switch,
            widget_counter: 0,
        }
    }
}

impl Default for PanelEditorState {
    fn default() -> (s: Self)
        ensures
            s.editing_panel_index is None,
            s.new_widget_type == NewWidgetType::Switch,
            s.widget_counter == 0,
    {
        Self::new()
    }
}

} // verus!
