//! Reporting a failed command-center action above the retained agents overview, with access
//! to an unsent draft when restoring it would overwrite newer input.

use vstd::prelude::*;
use vstd::string::StringExecFns;

verus! {

/// One choice of the error view.
pub struct ErrorViewItem {
    /// The label shown.
    pub name: String,
    /// The explanation shown under it, if any.
    pub description: Option<String>,
    /// Whether choosing it closes the view.
    pub dismiss_on_select: bool,
    /// The unsent draft that choosing it brings back into view, if any.
    pub view_unsent_prompt: Option<String>,
}

/// The error view shown over the agents overview.
pub struct AgentsOverviewErrorView {
    /// The bold header line.
    pub title: String,
    /// The dimmed line under it: the error message.
    pub message: String,
    /// The choices.
    pub items: Vec<ErrorViewItem>,
}

/// What reporting an action failure does: the view to show (only while the overview is on
/// screen) and the error message to add to the transcript in any case.
pub struct AgentsOverviewError {
    pub view: Option<AgentsOverviewErrorView>,
    pub error_message: String,
}

/// Reports `message`. The unsent draft kept for the overview is taken in any case; while the
/// overview is on screen, an error view offers to return to the command center and, when a
/// draft was kept, to view it (the newer draft stays in the composer).
pub fn add_agents_overview_error(unsent_prompt: &mut Option<String>, overview_visible: bool, message: String) -> (r:
    AgentsOverviewError)
    ensures
        *final(unsent_prompt) is None,
        r.error_message@ == message@,
        !overview_visible ==> r.view is None,
        overview_visible ==> (r.view matches Some(view) && {
            &&& view.title@ == "Unable to complete action"@
            &&& view.message@ == message@
            &&& view.items@.len() == if *old(unsent_prompt) is Some {
                2int
            } else {
                1int
            }
            &&& view.items@[0].name@ == "Return to command center"@
            &&& view.items@[0].description is None
            &&& view.items@[0].dismiss_on_select
            &&& view.items@[0].view_unsent_prompt is None
            &&& (*old(unsent_prompt) matches Some(text) ==> {
                &&& view.items@[1].name@ == "View unsent task"@
                &&& (view.items@[1].description matches Some(d) && d@
                    == "Your newer draft has been kept in the composer."@)
                &&& !view.items@[1].dismiss_on_select
                &&& (view.items@[1].view_unsent_prompt matches Some(t) && t@ == text@)
            })
        }),
{
    let unsent = unsent_prompt.take();
    let view = if overview_visible {
        let mut items: Vec<ErrorViewItem> = Vec::new();
        items.push(
            ErrorViewItem {
                name: String::from_str("Return to command center"),
                description: None,
                dismiss_on_select: true,
                view_unsent_prompt: None,
            },
        );
        match unsent {
            Some(text) => {
                items.push(
                    ErrorViewItem {
                        name: String::from_str("View unsent task"),
                        description: Some(String::from_str("Your newer draft has been kept in the composer.")),
                        dismiss_on_select: false,
                        view_unsent_prompt: Some(text),
                    },
                );
            },
            None => {},
        }
        Some(
            AgentsOverviewErrorView {
                title: String::from_str("Unable to complete action"),
                message: message.clone(),
                items,
            },
        )
    } else {
        None
    };
    AgentsOverviewError { view, error_message: message }
}

} // verus!
