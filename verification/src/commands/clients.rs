//! Installing the proxy in the clients that are selected.

use vstd::prelude::*;

use crate::clients::ClientDef;
use crate::text::cat;

verus! {

/// How a client is offered.
pub fn label(client: &ClientDef, installed: bool) -> (r: String)
    ensures
        r@ == client.name@ + (if installed {
            " (installed)"@
        } else {
            ""@
        }),
{
    if installed {
        cat(client.name.as_str(), " (installed)")
    } else {
        cat(client.name.as_str(), "")
    }
}

/// What to do with a client.
#[derive(Debug, Clone, Copy, PartialEq, Eq, Structural)]
pub enum Action {
    /// It has the proxy and keeps it: write the entry anew.
    Sync,
    /// It gets the proxy.
    Install,
    /// It has the proxy no more.
    Remove,
    /// It has no proxy and gets none.
    Leave,
}

/// What is done with a client.
pub open spec fn action_for(selected: bool, installed: bool) -> Action {
    if selected {
        if installed {
            Action::Sync
        } else {
            Action::Install
        }
    } else if installed {
        Action::Remove
    } else {
        Action::Leave
    }
}

/// What to do with each client: `installed` says which have the proxy, and
/// `selected` are the places of those that shall have it.
pub fn plan(installed: &Vec<bool>, selected: &Vec<usize>) -> (r: Vec<Action>)
    ensures
        r@ == Seq::new(
            installed@.len(),
            |i: int| action_for(selected@.contains(i as usize), installed@[i]),
        ),
{
    let n: usize = installed.len();
    let mut out: Vec<Action> = Vec::new();
    let mut i: usize = 0;
    while i < n
        invariant
            n == installed@.len(),
            i <= n,
            out@.len() == i,
            forall|k: int|
                0 <= k < i ==> #[trigger] out@[k] == action_for(
                    selected@.contains(k as usize),
                    installed@[k],
                ),
        decreases n - i,
    {
        let wanted: bool = holds(selected, i);
        let action: Action = if wanted {
            if installed[i] {
                Action::Sync
            } else {
                Action::Install
            }
        } else if installed[i] {
            Action::Remove
        } else {
            Action::Leave
        };
        out.push(action);
        i = i + 1;
    }
    out
}

fn holds(v: &Vec<usize>, x: usize) -> (r: bool)
    ensures
        r == v@.contains(x),
{
    let mut i: usize = 0;
    while i < v.len()
        invariant
            i <= v@.len(),
            forall|k: int| 0 <= k < i ==> v@[k] != x,
        decreases v@.len() - i,
    {
        if v[i] == x {
            return true;
        }
        i = i + 1;
    }
    false
}

/// The line for what was done with the client `name`, if anything.
pub fn done_line(action: Action, name: &str) -> (r: Option<String>)
    ensures
        crate::text::opt_text(r) == (match action {
            Action::Sync => Some("  🔄 synced "@ + name@),
            Action::Install => Some("  ✅ installed to "@ + name@),
            Action::Remove => Some("  🗑️  removed from "@ + name@),
            Action::Leave => None,
        }),
{
    match action {
        Action::Sync => Some(cat("  🔄 synced ", name)),
        Action::Install => Some(cat("  ✅ installed to ", name)),
        Action::Remove => Some(cat("  🗑️  removed from ", name)),
        Action::Leave => None,
    }
}

// ---------------------------------------------------------------------------
// Laws
// ---------------------------------------------------------------------------

/// Afterwards exactly the selected clients have the proxy.
pub proof fn selected_clients_have_the_proxy(selected: bool, installed: bool)
    ensures
        selected == (match action_for(selected, installed) {
            Action::Sync => true,
            Action::Install => true,
            Action::Remove => false,
            Action::Leave => installed,
        }),
{
}

} // verus!
