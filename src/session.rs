use vstd::prelude::*;

use crate::commandline::Args;

verus! {

/// One exchange with the router.
#[derive(Debug, Clone, Copy, PartialEq, Eq, Structural)]
pub enum Operation {
    Login,
    ActiveClients,
    MacfltEnable,
    MacfltDisable,
    MacfltStatus,
    Logout,
    Reboot,
}

/// The exchanges that a run performs, in order, for the first action that
/// `args` asks for; none where it asks for no action.
pub open spec fn plan(args: Args) -> Seq<Operation> {
    if args.login_only {
        seq![Operation::Login]
    } else if args.get_clients_only {
        seq![Operation::Login, Operation::ActiveClients, Operation::Logout]
    } else if args.enable_macflt {
        seq![Operation::Login, Operation::MacfltEnable, Operation::Logout]
    } else if args.disable_macflt {
        seq![Operation::Login, Operation::MacfltDisable, Operation::Logout]
    } else if args.show_status {
        seq![
            Operation::Login,
            Operation::MacfltStatus,
            Operation::ActiveClients,
            Operation::Logout,
        ]
    } else if args.logout {
        seq![Operation::Logout]
    } else if args.reboot {
        seq![Operation::Login, Operation::Reboot]
    } else {
        Seq::empty()
    }
}

/// Decides the exchanges of a run, in the order they are performed.
pub fn start(args: &Args) -> (r: Vec<Operation>)
    ensures
        r@ == plan(*args),
{
    let r = if args.login_only {
        vec![Operation::Login]
    } else if args.get_clients_only {
        vec![Operation::Login, Operation::ActiveClients, Operation::Logout]
    } else if args.enable_macflt {
        vec![Operation::Login, Operation::MacfltEnable, Operation::Logout]
    } else if args.disable_macflt {
        vec![Operation::Login, Operation::MacfltDisable, Operation::Logout]
    } else if args.show_status {
        vec![
            Operation::Login,
            Operation::MacfltStatus,
            Operation::ActiveClients,
            Operation::Logout,
        ]
    } else if args.logout {
        vec![Operation::Logout]
    } else if args.reboot {
        vec![Operation::Login, Operation::Reboot]
    } else {
        Vec::new()
    };
    proof {
        assert(r@ =~= plan(*args));
    }
    r
}

/// The exchange that comes next, after the first `done` exchanges of the
/// run's plan, where `last_ok` tells whether the last of them succeeded.
/// A failure ends the run: nothing follows it, not even the logout.
pub fn next_step(args: &Args, done: usize, last_ok: bool) -> (r: Option<Operation>)
    ensures
        !last_ok ==> r is None,
        last_ok && done < plan(*args).len() ==> r == Some(plan(*args)[done as int]),
        done >= plan(*args).len() ==> r is None,
{
    if !last_ok {
        return None;
    }
    let steps = start(args);
    if done < steps.len() {
        Some(steps[done])
    } else {
        None
    }
}

} // verus!
