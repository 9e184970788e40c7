//! Saved filter settings of the search screens, and user notifications.

use vstd::prelude::*;

verus! {

/// A named set of facet filters saved for one page.
pub struct FacetPreset {
    id: i64,
    page: String,
    name: String,
    state_json: String,
    updated_at: Option<String>,
}

impl FacetPreset {
    /// A preset as the database lists it: id, page, name, serialised
    /// filter state and time of the last update.
    pub fn from_row(id: i64, page: String, name: String, state_json: String, updated_at: Option<String>) -> (r: FacetPreset)
        ensures
            r.id() == id,
            r.page() == page,
            r.name() == name,
            r.state_json() == state_json,
            r.updated_at() == updated_at,
    {
        FacetPreset { id, page, name, state_json, updated_at }
    }

    pub closed spec fn id(&self) -> i64 {
        self.id
    }

    pub closed spec fn page(&self) -> String {
        self.page
    }

    pub closed spec fn name(&self) -> String {
        self.name
    }

    pub closed spec fn state_json(&self) -> String {
        self.state_json
    }

    pub closed spec fn updated_at(&self) -> Option<String> {
        self.updated_at
    }

    pub fn preset_id(&self) -> (r: i64)
        ensures
            r == self.id(),
    {
        self.id
    }

    pub fn preset_page(&self) -> (r: &String)
        ensures
            *r == self.page(),
    {
        &self.page
    }

    pub fn preset_name(&self) -> (r: &String)
        ensures
            *r == self.name(),
    {
        &self.name
    }

    pub fn preset_state_json(&self) -> (r: &String)
        ensures
            *r == self.state_json(),
    {
        &self.state_json
    }

    pub fn preset_updated_at(&self) -> (r: &Option<String>)
        ensures
            *r == self.updated_at(),
    {
        &self.updated_at
    }
}

/// A message shown to the user.
pub struct Notification {
    pub id: String,
    pub title: String,
    pub message: String,
    pub notification_type: String,
    pub timestamp: String,
    pub read: bool,
}

} // verus!
