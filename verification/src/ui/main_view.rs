//! The tabs of the main view.
use vstd::prelude::*;

verus! {

/// A tab of the main view.
#[derive(Debug, Clone, Copy, PartialEq, Eq, Structural)]
pub enum MainTab {
    ChannelConfig,
    LogView,
    GraphView,
    TxConfig,
    TxPanels,
    PanelEditor,
}

/// The title of a tab.
pub open spec fn tab_title(tab: MainTab) -> Seq<char> {
    match tab {
        MainTab::ChannelConfig => "Channel Config"@,
        MainTab::LogView => "CAN Log"@,
        MainTab::GraphView => "Graph"@,
        MainTab::TxConfig => "TX Config"@,
        MainTab::TxPanels => "TX Panels"@,
        MainTab::PanelEditor => "Panel Editor"@,
    }
}

impl MainTab {
    /// The title of the tab.
    pub fn label(&self) -> (s: &'static str)
        ensures
            s@ == tab_title(*self),
    {
        match self {
            MainTab::ChannelConfig => "Channel Config",
            MainTab::LogView => "CAN Log",
            MainTab::GraphView => "Graph",
            MainTab::TxConfig => "TX Config",
            MainTab::TxPanels => "TX Panels",
            MainTab::PanelEditor => "Panel Editor",
        }
    }

    /// The tabs in the order the tab bar shows them.
    pub fn all() -> (v: [MainTab; 6])
        ensures
            v@ == seq![
                MainTab::ChannelConfig,
                MainTab::LogView,
                MainTab::GraphView,
                MainTab::TxConfig,
                MainTab::TxPanels,
                MainTab::PanelEditor,
            ],
    {
        let v = [
            MainTab::ChannelConfig,
            MainTab::LogView,
            MainTab::GraphView,
            MainTab::TxConfig,
            MainTab::TxPanels,
            MainTab::PanelEditor,
        ];
        assert(v@ =~= seq![
            MainTab::ChannelConfig,
            MainTab::LogView,
            MainTab::GraphView,
            MainTab::TxConfig,
            MainTab::TxPanels,
            MainTab::PanelEditor,
        ]);
        v
    }
}

} // verus!
