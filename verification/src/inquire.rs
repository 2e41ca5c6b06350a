//! The choices the interactive menus offer, and how a selection maps back to
//! an action. The prompting itself (terminal input) happens outside the
//! library; it passes the selected index in.
use crate::text::str_eq;
use crate::versioning::strings_view;
use vstd::prelude::*;
use vstd::string::*;

verus! {

/// The actions available on a server container in the given state: always
/// update, logs and delete; a running container can also be managed,
/// restarted and stopped; a stopped one can be started.
pub open spec fn actions_spec(status: Seq<char>) -> Seq<Seq<char>> {
    let base = seq!["Update"@, "View logs"@];
    let mid: Seq<Seq<char>> = if status == "running"@ {
        seq!["Manage invites"@, "Restart"@, "Stop"@]
    } else if status == "exited"@ || status == "created"@ || status == "dead"@ || status
        == "paused"@ {
        seq!["Start"@]
    } else {
        Seq::empty()
    };
    base + mid + seq!["Delete"@]
}

pub fn get_server_container_actions(status: &str) -> (r: Vec<String>)
    ensures
        strings_view(r@) == actions_spec(status@),
{
    let mut r: Vec<String> = Vec::new();
    r.push(String::from_str("Update"));
    r.push(String::from_str("View logs"));
    if str_eq(status, "running") {
        r.push(String::from_str("Manage invites"));
        r.push(String::from_str("Restart"));
        r.push(String::from_str("Stop"));
    } else if str_eq(status, "exited") || str_eq(status, "created") || str_eq(status, "dead")
        || str_eq(status, "paused") {
        r.push(String::from_str("Start"));
    }
    r.push(String::from_str("Delete"));
    proof {
        assert(strings_view(r@) =~= actions_spec(status@));
    }
    r
}

/// The menu shown for a server container: its actions, then `Go back`.
pub open spec fn action_menu_spec(status: Seq<char>) -> Seq<Seq<char>> {
    actions_spec(status) + seq!["Go back"@]
}

/// Resolve the operator's menu selection for a server container; `None` when
/// the prompt was skipped or the index is out of range.
pub fn select_server_container_action(status: &str, selection: Option<usize>) -> (r: Option<
    String,
>)
    ensures
        match selection {
            None => r is None,
            Some(i) => if i < action_menu_spec(status@).len() {
                r matches Some(a) && a@ == action_menu_spec(status@)[i as int]
            } else {
                r is None
            },
        },
{
    let i = match selection {
        Some(i) => i,
        None => {
            return None;
        },
    };
    let mut options = get_server_container_actions(status);
    options.push(String::from_str("Go back"));
    proof {
        assert(strings_view(options@) =~= action_menu_spec(status@));
    }
    if i < options.len() {
        Some(options.remove(i))
    } else {
        None
    }
}

/// The invite-management menu.
pub open spec fn invites_menu_spec() -> Seq<Seq<char>> {
    seq!["Create"@, "List"@, "Delete"@, "Go back"@]
}

/// Resolve the operator's selection in the invite menu; `None` when the
/// prompt was skipped or the index is out of range.
pub fn select_invites_action(selection: Option<usize>) -> (r: Option<String>)
    ensures
        match selection {
            None => r is None,
            Some(i) => if i < invites_menu_spec().len() {
                r matches Some(a) && a@ == invites_menu_spec()[i as int]
            } else {
                r is None
            },
        },
{
    let i = match selection {
        Some(i) => i,
        None => {
            return None;
        },
    };
    let mut options: Vec<String> = Vec::new();
    options.push(String::from_str("Create"));
    options.push(String::from_str("List"));
    options.push(String::from_str("Delete"));
    options.push(String::from_str("Go back"));
    proof {
        assert(strings_view(options@) =~= invites_menu_spec());
    }
    if i < options.len() {
        Some(options.remove(i))
    } else {
        None
    }
}

} // verus!
