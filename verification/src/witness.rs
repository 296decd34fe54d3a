//! What the UI reports of itself at one frame to an acceptance harness.
use vstd::prelude::*;

verus! {

/// Independent facts of the UI at one frame.
#[derive(Debug)]
pub struct State {
    pub contract: &'static str,
    pub water: &'static str,
    pub filter: String,
    pub result_posts: usize,
    pub text_edit_focused: bool,
    pub ui_panel_open: bool,
    pub query_open: bool,
    pub active_group: Vec<usize>,
    pub images_per_row: u16,
    pub guide_open: bool,
    pub settings: Settings,
    pub prefetch_on_hover: bool,
    pub mirror_active: bool,
    pub viewer_tags_open: bool,
    pub tag_push_ready: bool,
    pub viewer_post: Option<u32>,
}

/// The settings sheet as observed.
#[derive(Debug)]
pub struct Settings {
    pub open: bool,
    pub fault: Option<String>,
    pub settled: bool,
}

impl Default for Settings {
    fn default() -> (r: Settings)
        ensures
            !r.open,
            r.fault is None,
            !r.settled,
    {
        Settings { open: false, fault: None, settled: false }
    }
}

} // verus!
