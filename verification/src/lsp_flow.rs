//! The order of an LSP call: what is done first, what follows, and where it ends.
//!
//! A call waits for the user, the disk and the servers several times over. Each
//! wait is one [`Phase`]; what follows depends on the call and on how the phase
//! went, and on nothing else.
use vstd::prelude::*;
use crate::lsp_tool::{
    a_read_starts_no_write, file_planned, needs_position, needs_sync, params_of, plan, plan_file,
    planned, points, reading, request_params, whole_workspace, FilePlan, InputView, LspInput,
    LspPlan, Params, PlanView,
};

verus! {

/// What a call is waiting for.
#[derive(Debug, PartialEq, Eq, Clone, Copy, Structural)]
pub enum Phase {
    /// The permission to make the call.
    Permission,
    /// The settings, read again.
    Settings,
    /// The servers that the call goes to.
    Servers,
    /// The permission to write where a file moves to.
    Destination,
    /// The parameters that the call brought along, parsed.
    Payload,
    /// The file, sent to the server.
    Sync,
    /// The column that the call points at.
    Column,
    /// The servers' answer.
    Query,
    /// The change that the answer asks for.
    Apply,
    /// The reasons why no server answers.
    Explain,
    /// Nothing: the answer stands.
    Over,
}

/// How a phase went.
#[derive(Debug, PartialEq, Eq, Clone, Copy, Structural)]
pub enum Went {
    /// It did what it was for.
    Well,
    /// It was refused or failed.
    Wrong,
    /// It left a change to apply.
    Open,
}

/// What follows a phase.
pub open spec fn follows(i: InputView, phase: Phase, went: Went) -> Phase {
    match phase {
        Phase::Query => if went == Went::Open && planned(i) is OnFile && (file_planned(i)
            is Rename || file_planned(i) is CodeActions) {
            Phase::Apply
        } else {
            Phase::Over
        },
        Phase::Servers if went == Went::Wrong => Phase::Explain,
        _ => if went == Went::Wrong {
            Phase::Over
        } else {
            went_well(i, phase)
        },
    }
}

/// What follows a phase that did what it was for.
pub open spec fn went_well(i: InputView, phase: Phase) -> Phase {
    match (phase, planned(i)) {
        (Phase::Permission, _) => Phase::Settings,
        (Phase::Settings, PlanView::Fail(_)) => Phase::Over,
        (Phase::Settings, PlanView::Status) => Phase::Query,
        (Phase::Settings, PlanView::WorkspaceSymbols) => Phase::Query,
        (Phase::Settings, PlanView::RenameFile) => Phase::Destination,
        (Phase::Settings, _) => Phase::Servers,
        (Phase::Destination, _) => Phase::Query,
        (Phase::Servers, PlanView::RawRequest) => match params_of(i) {
            Params::Payload => Phase::Payload,
            Params::Empty => Phase::Query,
            Params::Position => Phase::Column,
        },
        (Phase::Servers, PlanView::OnFile) => if i.action != "diagnostics"@ {
            Phase::Sync
        } else {
            Phase::Query
        },
        (Phase::Servers, _) => Phase::Query,
        (Phase::Payload, _) => if whole_workspace(i) {
            Phase::Query
        } else {
            Phase::Sync
        },
        (Phase::Column, PlanView::RawRequest) => Phase::Sync,
        (Phase::Column, _) => Phase::Query,
        (Phase::Sync, PlanView::OnFile) => if points(file_planned(i)) {
            Phase::Column
        } else if file_planned(i) is UnnamedRename || file_planned(i) is Unknown {
            Phase::Over
        } else {
            Phase::Query
        },
        (Phase::Sync, _) => Phase::Query,
        _ => Phase::Over,
    }
}

/// Say what follows a phase.
pub fn next_phase(i: &LspInput, phase: Phase, went: Went) -> (next: Phase)
    ensures
        next == follows(i@, phase, went),
{
    match phase {
        Phase::Query => {
            if went == Went::Open {
                match (plan(i), plan_file(i)) {
                    (LspPlan::OnFile, FilePlan::Rename) => Phase::Apply,
                    (LspPlan::OnFile, FilePlan::CodeActions) => Phase::Apply,
                    _ => Phase::Over,
                }
            } else {
                Phase::Over
            }
        },
        Phase::Servers => if went == Went::Wrong {
            Phase::Explain
        } else {
            phase_after(i, phase)
        },
        _ => if went == Went::Wrong {
            Phase::Over
        } else {
            phase_after(i, phase)
        },
    }
}

fn phase_after(i: &LspInput, phase: Phase) -> (next: Phase)
    ensures
        next == went_well(i@, phase),
{
    match (phase, plan(i)) {
        (Phase::Permission, _) => Phase::Settings,
        (Phase::Settings, LspPlan::Fail(_)) => Phase::Over,
        (Phase::Settings, LspPlan::Status) => Phase::Query,
        (Phase::Settings, LspPlan::WorkspaceSymbols) => Phase::Query,
        (Phase::Settings, LspPlan::RenameFile) => Phase::Destination,
        (Phase::Settings, _) => Phase::Servers,
        (Phase::Destination, _) => Phase::Query,
        (Phase::Servers, LspPlan::RawRequest) => match request_params(i) {
            Params::Payload => Phase::Payload,
            Params::Empty => Phase::Query,
            Params::Position => Phase::Column,
        },
        (Phase::Servers, LspPlan::OnFile) => if needs_sync(i) {
            Phase::Sync
        } else {
            Phase::Query
        },
        (Phase::Servers, _) => Phase::Query,
        (Phase::Payload, _) => if i.is_workspace() {
            Phase::Query
        } else {
            Phase::Sync
        },
        (Phase::Column, LspPlan::RawRequest) => Phase::Sync,
        (Phase::Column, _) => Phase::Query,
        (Phase::Sync, LspPlan::OnFile) => {
            let on_file = plan_file(i);
            if needs_position(on_file) {
                Phase::Column
            } else {
                match on_file {
                    FilePlan::UnnamedRename => Phase::Over,
                    FilePlan::Unknown => Phase::Over,
                    _ => Phase::Query,
                }
            }
        },
        (Phase::Sync, _) => Phase::Query,
        _ => Phase::Over,
    }
}

/// Where a call stands after its phases went as they did.
pub open spec fn stands(i: InputView, so_far: Seq<Went>) -> Phase
    decreases so_far.len(),
{
    if so_far.len() == 0 {
        Phase::Permission
    } else {
        follows(i, stands(i, so_far.drop_last()), so_far.last())
    }
}

/// How many phases can still come.
pub open spec fn phases_left(i: InputView, phase: Phase) -> nat {
    match phase {
        Phase::Permission => 8,
        Phase::Settings => 7,
        Phase::Servers => 6,
        Phase::Destination => 6,
        Phase::Payload => 5,
        Phase::Sync => if planned(i) is RawRequest {
            3
        } else {
            4
        },
        Phase::Column => if planned(i) is RawRequest {
            4
        } else {
            3
        },
        Phase::Query => 2,
        Phase::Apply => 1,
        Phase::Explain => 1,
        Phase::Over => 0,
    }
}

/// However its phases go, a call comes to its end: each phase leaves fewer of
/// them to come.
pub proof fn a_call_ends(i: InputView, phase: Phase, went: Went)
    requires
        phase != Phase::Over,
    ensures
        phases_left(i, follows(i, phase, went)) < phases_left(i, phase),
{
}

/// A call that is over stays over.
pub proof fn over_is_over(i: InputView, went: Went)
    ensures
        follows(i, Phase::Over, went) == Phase::Over,
{
}

/// Nothing is done before the permission is given: a call that has come to
/// anything but its end was permitted first.
pub proof fn nothing_happens_unpermitted(i: InputView, so_far: Seq<Went>)
    requires
        so_far.len() > 0,
        stands(i, so_far) != Phase::Over,
    ensures
        so_far[0] != Went::Wrong,
    decreases so_far.len(),
{
    let before = so_far.drop_last();
    if before.len() > 0 {
        if stands(i, before) == Phase::Over {
            over_is_over(i, so_far.last());
        }
        nothing_happens_unpermitted(i, before);
        assert(before[0] == so_far[0]);
    } else {
        assert(stands(i, before) == Phase::Permission);
    }
}

/// A file that moves is moved only after the permission to write its
/// destination, which is given after the one to make the call.
pub proof fn a_move_is_permitted_twice(i: InputView, so_far: Seq<Went>)
    requires
        planned(i) is RenameFile,
        stands(i, so_far) == Phase::Query,
    ensures
        so_far.len() == 3,
        so_far[0] != Went::Wrong,
        so_far[2] != Went::Wrong,
        stands(i, so_far.drop_last()) == Phase::Destination,
{
    reveal_with_fuel(stands, 4);
    let one = so_far.drop_last();
    assert(stands(i, one) == Phase::Destination);
    let two = one.drop_last();
    assert(stands(i, two) == Phase::Settings);
    let three = two.drop_last();
    assert(stands(i, three) == Phase::Permission) by {
        if three.len() > 0 {
            assert(stands(i, two) == follows(i, stands(i, three), two.last()));
        }
    }
    assert(three.len() == 0) by {
        if three.len() > 0 {
            never_back_to_permission(i, three);
        }
    }
    nothing_happens_unpermitted(i, so_far);
}

/// No phase leads back to the first permission.
proof fn never_back_to_permission(i: InputView, so_far: Seq<Went>)
    requires
        so_far.len() > 0,
    ensures
        stands(i, so_far) != Phase::Permission,
{
}

/// A server is asked about a file only after the file was sent to it.
pub proof fn the_file_goes_first(i: InputView, so_far: Seq<Went>)
    requires
        planned(i) is OnFile,
        i.action != "diagnostics"@,
        stands(i, so_far) == Phase::Query,
    ensures
        exists|k: int|
            0 <= k < so_far.len() && so_far[k] != Went::Wrong && #[trigger] stands(
                i,
                so_far.take(k),
            ) == Phase::Sync,
{
    let n = so_far.len() as int;
    let before = so_far.drop_last();
    assert(before =~= so_far.take(n - 1));
    if stands(i, before) == Phase::Sync {
        assert(stands(i, so_far.take(n - 1)) == Phase::Sync);
    } else {
        assert(stands(i, before) == Phase::Column);
        let earlier = before.drop_last();
        assert(earlier =~= so_far.take(n - 2));
        assert(stands(i, earlier) == Phase::Sync);
        assert(before.last() == so_far[n - 2]);
        assert(stands(i, so_far.take(n - 2)) == Phase::Sync);
    }
}

/// A call that only reads applies nothing, moves nothing and asks for no
/// permission to write, however its phases go.
pub proof fn a_read_changes_nothing(i: InputView, so_far: Seq<Went>)
    requires
        reading(i.action),
    ensures
        stands(i, so_far) != Phase::Apply,
        stands(i, so_far) != Phase::Destination,
{
    a_read_starts_no_write(i);
    if so_far.len() > 0 {
        assert(stands(i, so_far) == follows(i, stands(i, so_far.drop_last()), so_far.last()));
    }
}

/// A file that was sent is asked about at a place where the action points at one; an
/// action that is not known, or a rename without a name, goes no further.
pub proof fn what_follows_sending_the_file(i: InputView, went: Went)
    requires
        planned(i) is OnFile,
        went != Went::Wrong,
    ensures
        points(file_planned(i)) ==> follows(i, Phase::Sync, went) == Phase::Column,
        !points(file_planned(i)) && (file_planned(i) is UnnamedRename || file_planned(i) is Unknown)
            ==> follows(i, Phase::Sync, went) == Phase::Over,
        !points(file_planned(i)) && !(file_planned(i) is UnnamedRename) && !(file_planned(
            i,
        ) is Unknown) ==> follows(i, Phase::Sync, went) == Phase::Query,
{
}

/// A change is applied only where a question left one, and only for a rename or for code
/// actions; a question that left none is the end.
pub proof fn a_change_is_applied_where_one_is_left(i: InputView, went: Went)
    ensures
        follows(i, Phase::Query, went) == Phase::Apply <==> went == Went::Open && planned(i)
            is OnFile && (file_planned(i) is Rename || file_planned(i) is CodeActions),
        follows(i, Phase::Query, went) != Phase::Apply ==> follows(i, Phase::Query, went)
            == Phase::Over,
        follows(i, Phase::Servers, Went::Wrong) == Phase::Explain,
{
}

/// What is asked for decides which way a call goes once the settings are read: to its
/// end where it cannot be planned, to the question where no server has to be found, and
/// else to the servers.
pub proof fn what_follows_the_settings(i: InputView, went: Went)
    requires
        went != Went::Wrong,
    ensures
        planned(i) is Fail ==> follows(i, Phase::Settings, went) == Phase::Over,
        planned(i) is Status || planned(i) is WorkspaceSymbols ==> follows(i, Phase::Settings, went)
            == Phase::Query,
        planned(i) is RenameFile ==> follows(i, Phase::Settings, went) == Phase::Destination,
        planned(i) is OnFile || planned(i) is RawRequest ==> follows(i, Phase::Settings, went)
            == Phase::Servers,
        follows(i, Phase::Permission, went) == Phase::Settings,
{
}

} // verus!
