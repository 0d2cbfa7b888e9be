//! The state that the essay-writing steps share: the task and what each step
//! has produced so far.
use vstd::prelude::*;

verus! {

#[derive(Debug)]
pub struct AgentState {
    pub task: String,
    pub plan: Option<String>,
    pub queries: Option<Vec<String>>,
    pub urls: Option<Vec<String>>,
    pub research: Option<Vec<String>>,
    pub draft: Option<String>,
    pub critique: Option<String>,
    pub content: Option<String>,
    pub revision_number: u32,
    pub max_revisions: u32,
}

impl AgentState {
    /// A fresh state for `task`: nothing produced yet, and the revision count
    /// set to `max_revisions`.
    pub fn new(task: String, max_revisions: u32) -> (r: Self)
        ensures
            r.task == task,
            r.plan is None,
            r.queries is None,
            r.urls is None,
            r.research is None,
            r.draft is None,
            r.critique is None,
            r.content is None,
            r.revision_number == max_revisions,
            r.max_revisions == max_revisions,
    {
        AgentState {
            task,
            plan: None,
            queries: None,
            urls: None,
            research: None,
            draft: None,
            critique: None,
            content: None,
            revision_number: max_revisions,
            max_revisions,
        }
    }
}

} // verus!
