//! The model's own view of the durable goal a session carries.
//!
//! One tool with an `op`, so the model can read the goal it is working under,
//! mark it complete after an audit, resume a paused one, drop one, or create
//! one. Completion is detected from the goal's *status*, so `complete` only has
//! to set the status.
use vstd::prelude::*;
use crate::text::{
    decimal, number, opt_view, quote, quoted, same, trim, trimmed,
};
use crate::{said, PermissionLevel, ResultView, ToolResult};

verus! {

pub struct GoalTool;

impl GoalTool {
    pub fn name(&self) -> (out: &'static str)
        ensures
            out@ == "Goal"@,
    {
        "Goal"
    }

    pub fn permission_level(&self) -> (out: PermissionLevel)
        ensures
            out == PermissionLevel::NotNeeded,
    {
        PermissionLevel::NotNeeded
    }
}

/// How a goal stands.
#[derive(Debug, PartialEq, Eq, Clone, Copy, Structural)]
pub enum GoalStatus {
    Active,
    Paused,
    BudgetLimited,
    Complete,
}

/// The goal of a session.
#[derive(Debug)]
pub struct Goal {
    pub objective: String,
    pub status: GoalStatus,
    /// How the store words the status.
    pub status_text: String,
    pub turns_used: u64,
    /// How long the goal has been worked on, in words.
    pub elapsed: String,
    /// What of the budget is used, in words, where there is a budget.
    pub budget: Option<String>,
    pub token_budget: Option<u64>,
    pub tokens_used: u64,
}

/// What the tool's caller gives.
#[derive(Debug)]
pub struct GoalInput {
    /// One of get, complete, resume, drop, create.
    pub op: String,
    /// create: the objective to work toward.
    pub objective: Option<String>,
    /// create: a soft token budget, in tokens.
    pub token_budget: Option<u64>,
    /// complete: what was accomplished and verified.
    pub audit_summary: Option<String>,
    /// complete: concrete evidence — test output, diffs, command results.
    pub evidence: Option<String>,
}

/// What is done to the store.
#[derive(Debug)]
pub enum GoalStep {
    /// Nothing: this is the answer.
    Finish(ToolResult),
    /// Give the goal a status.
    SetStatus(GoalStatus),
    /// Remove the goal.
    Clear,
    /// Set a new goal.
    Create { objective: String, token_budget: Option<u64> },
}

/// What a [`GoalStep`] says.
#[verifier::ext_equal]
pub enum StepView {
    Finish(ResultView),
    SetStatus(GoalStatus),
    Clear,
    Create { objective: Seq<char>, token_budget: Option<u64> },
}

impl View for GoalStep {
    type V = StepView;

    open spec fn view(&self) -> StepView {
        match *self {
            GoalStep::Finish(r) => StepView::Finish(r@),
            GoalStep::SetStatus(s) => StepView::SetStatus(s),
            GoalStep::Clear => StepView::Clear,
            GoalStep::Create { objective, token_budget } => StepView::Create {
                objective: objective@,
                token_budget,
            },
        }
    }
}

/// A text without the blanks around it; none is an empty one.
pub open spec fn trimmed_or_empty(s: Option<Seq<char>>) -> Seq<char> {
    match s {
        Some(s) => trimmed(s),
        None => seq![],
    }
}

fn trim_or_empty(s: &Option<String>) -> (out: String)
    ensures
        out@ == trimmed_or_empty(opt_view(*s)),
{
    match s {
        Some(s) => trim(s),
        None => String::new(),
    }
}

/// What of a goal's budget is left.
pub open spec fn tokens_left(budget: u64, used: u64) -> nat {
    if budget >= used {
        (budget - used) as nat
    } else {
        0
    }
}

/// The budget line of a goal.
pub open spec fn budget_line(g: Goal) -> Seq<char> {
    match g.budget {
        Some(budget) => match g.token_budget {
            Some(total) => "\nBudget: "@ + budget@ + " ("@ + decimal(
                tokens_left(total, g.tokens_used),
            ) + " tokens left)"@,
            None => "\nBudget: "@ + budget@,
        },
        None => seq![],
    }
}

/// One human-readable block for a goal.
pub open spec fn description(g: Goal) -> Seq<char> {
    "Status: "@ + g.status_text@ + "\nTurns: "@ + decimal(g.turns_used as nat) + "\nElapsed: "@
        + g.elapsed@ + budget_line(g) + "\nObjective:\n  "@ + g.objective@
}

/// One human-readable block for a goal.
pub fn describe(goal: &Goal) -> (out: String)
    ensures
        out@ == description(*goal),
{
    let budget = match &goal.budget {
        Some(budget) => {
            let mut line = "\nBudget: ".to_string();
            line.push_str(budget);
            if let Some(total) = goal.token_budget {
                line.push_str(" (");
                line.push_str(&number(total.saturating_sub(goal.tokens_used)));
                line.push_str(" tokens left)");
            }
            line
        },
        None => String::new(),
    };
    let mut out = "Status: ".to_string();
    out.push_str(&goal.status_text);
    out.push_str("\nTurns: ");
    out.push_str(&number(goal.turns_used));
    out.push_str("\nElapsed: ");
    out.push_str(&goal.elapsed);
    out.push_str(&budget);
    out.push_str("\nObjective:\n  ");
    out.push_str(&goal.objective);
    out
}

/// What reading the goal answers.
pub open spec fn get_answer(goal: Option<Goal>) -> ResultView {
    match goal {
        None => said(
            "No goal is set for this session. Ask the user to open one, or use op \"create\" when a goal has been opened for you."@,
            false,
        ),
        Some(g) => said(description(g), false),
    }
}

/// Report the current goal, its status, and what budget is left.
pub fn op_get(goal: &Option<Goal>) -> (r: ToolResult)
    ensures
        r@ == get_answer(*goal),
{
    match goal {
        None => ToolResult::success(
            "No goal is set for this session. Ask the user to open one, or use op \"create\" when a goal has been opened for you.".to_string(),
        ),
        Some(g) => ToolResult::success(describe(g)),
    }
}

/// What marking the goal complete comes to. It takes an audit, evidence, and a
/// goal that is active.
pub open spec fn complete_step(
    goal: Option<Goal>,
    audit: Seq<char>,
    evidence: Seq<char>,
) -> StepView {
    if audit.len() == 0 {
        StepView::Finish(
            said(
                "audit_summary is required for complete: state concretely what was achieved."@,
                true,
            ),
        )
    } else if evidence.len() == 0 {
        StepView::Finish(
            said(
                "evidence is required for complete: give test output, diffs or command results."@,
                true,
            ),
        )
    } else if !(goal matches Some(g) && g.status == GoalStatus::Active) {
        StepView::Finish(
            said(
                "There is no active goal to complete. Use op \"get\" to see the current one."@,
                true,
            ),
        )
    } else {
        StepView::SetStatus(GoalStatus::Complete)
    }
}

/// Mark the goal complete after an audit.
pub fn op_complete(goal: &Option<Goal>, input: &GoalInput) -> (s: GoalStep)
    ensures
        s@ == complete_step(
            *goal,
            trimmed_or_empty(opt_view(input.audit_summary)),
            trimmed_or_empty(opt_view(input.evidence)),
        ),
{
    let audit = trim_or_empty(&input.audit_summary);
    let evidence = trim_or_empty(&input.evidence);
    if audit.as_str().is_empty() {
        return GoalStep::Finish(
            ToolResult::error(
                "audit_summary is required for complete: state concretely what was achieved.".to_string(),
            ),
        );
    }
    if evidence.as_str().is_empty() {
        return GoalStep::Finish(
            ToolResult::error(
                "evidence is required for complete: give test output, diffs or command results.".to_string(),
            ),
        );
    }
    let active = match goal {
        Some(g) => g.status == GoalStatus::Active,
        None => false,
    };
    if !active {
        return GoalStep::Finish(
            ToolResult::error(
                "There is no active goal to complete. Use op \"get\" to see the current one.".to_string(),
            ),
        );
    }
    GoalStep::SetStatus(GoalStatus::Complete)
}

/// What resuming the goal comes to.
pub open spec fn resume_step(goal: Option<Goal>) -> StepView {
    match goal {
        None => StepView::Finish(said("There is no goal to resume."@, true)),
        Some(g) => match g.status {
            GoalStatus::Active => StepView::Finish(said("The goal is already active."@, false)),
            GoalStatus::Complete => StepView::Finish(
                said("The goal is complete; create a new one rather than resuming it."@, true),
            ),
            _ => StepView::SetStatus(GoalStatus::Active),
        },
    }
}

/// Resume a paused or budget-limited goal.
pub fn op_resume(goal: &Option<Goal>) -> (s: GoalStep)
    ensures
        s@ == resume_step(*goal),
{
    match goal {
        None => GoalStep::Finish(ToolResult::error("There is no goal to resume.".to_string())),
        Some(g) => match g.status {
            GoalStatus::Active => GoalStep::Finish(
                ToolResult::success("The goal is already active.".to_string()),
            ),
            GoalStatus::Complete => GoalStep::Finish(
                ToolResult::error(
                    "The goal is complete; create a new one rather than resuming it.".to_string(),
                ),
            ),
            _ => GoalStep::SetStatus(GoalStatus::Active),
        },
    }
}

/// What creating a goal comes to. It takes an objective, and that there is no
/// goal yet.
pub open spec fn create_step(
    goal: Option<Goal>,
    objective: Seq<char>,
    token_budget: Option<u64>,
) -> StepView {
    if goal is Some {
        StepView::Finish(
            said(
                "A goal already exists for this session. Use op \"drop\" first, or \"resume\" to continue it."@,
                true,
            ),
        )
    } else if objective.len() == 0 {
        StepView::Finish(
            said("objective is required for create: state the single verifiable outcome."@, true),
        )
    } else {
        StepView::Create { objective, token_budget }
    }
}

/// Create a goal, but only when none exists yet.
///
/// The model does not set itself a budget out of nowhere. A goal is opened for
/// it, and only then, with no record yet, may it create one.
pub fn op_create(goal: &Option<Goal>, input: &GoalInput) -> (s: GoalStep)
    ensures
        s@ == create_step(
            *goal,
            trimmed_or_empty(opt_view(input.objective)),
            input.token_budget,
        ),
{
    if goal.is_some() {
        return GoalStep::Finish(
            ToolResult::error(
                "A goal already exists for this session. Use op \"drop\" first, or \"resume\" to continue it.".to_string(),
            ),
        );
    }
    let objective = trim_or_empty(&input.objective);
    if objective.as_str().is_empty() {
        return GoalStep::Finish(
            ToolResult::error(
                "objective is required for create: state the single verifiable outcome.".to_string(),
            ),
        );
    }
    GoalStep::Create { objective, token_budget: input.token_budget }
}

/// What an op comes to, given the session's goal.
pub open spec fn goal_step(goal: Option<Goal>, input: GoalInput) -> StepView {
    let op = input.op@;
    if op == "get"@ {
        StepView::Finish(get_answer(goal))
    } else if op == "complete"@ {
        complete_step(
            goal,
            trimmed_or_empty(opt_view(input.audit_summary)),
            trimmed_or_empty(opt_view(input.evidence)),
        )
    } else if op == "resume"@ {
        resume_step(goal)
    } else if op == "drop"@ {
        StepView::Clear
    } else if op == "create"@ {
        create_step(goal, trimmed_or_empty(opt_view(input.objective)), input.token_budget)
    } else {
        StepView::Finish(
            said(
                "unknown op "@ + quoted(op) + "; use get, complete, resume, drop or create"@,
                true,
            ),
        )
    }
}

/// Decide an op, given the session's goal.
pub fn step(goal: &Option<Goal>, input: &GoalInput) -> (s: GoalStep)
    ensures
        s@ == goal_step(*goal, *input),
{
    if same(&input.op, "get") {
        GoalStep::Finish(op_get(goal))
    } else if same(&input.op, "complete") {
        op_complete(goal, input)
    } else if same(&input.op, "resume") {
        op_resume(goal)
    } else if same(&input.op, "drop") {
        GoalStep::Clear
    } else if same(&input.op, "create") {
        op_create(goal, input)
    } else {
        let mut out = "unknown op ".to_string();
        let op = quote(&input.op);
        out.push_str(&op);
        out.push_str("; use get, complete, resume, drop or create");
        GoalStep::Finish(ToolResult::error(out))
    }
}

/// What a change that the store made, or refused, is answered with.
pub open spec fn changed_answer(
    step: StepView,
    input: GoalInput,
    outcome: Result<Option<Goal>, String>,
) -> ResultView {
    match step {
        StepView::Finish(r) => r,
        StepView::SetStatus(status) => if status == GoalStatus::Complete {
            match outcome {
                Ok(_) => said(
                    "Goal marked complete.\n\nAudit summary: "@ + trimmed_or_empty(
                        opt_view(input.audit_summary),
                    ) + "\n\nEvidence: "@ + trimmed_or_empty(opt_view(input.evidence)),
                    false,
                ),
                Err(e) => said("Failed to mark the goal complete: "@ + e@, true),
            }
        } else {
            match outcome {
                Ok(_) => said("Goal resumed; it will continue on the next turn."@, false),
                Err(e) => said("Failed to resume the goal: "@ + e@, true),
            }
        },
        StepView::Clear => match outcome {
            Ok(_) => said("Goal dropped."@, false),
            Err(e) => said("Failed to drop the goal: "@ + e@, true),
        },
        StepView::Create { .. } => match outcome {
            Ok(Some(g)) => said("Goal created.\n\n"@ + description(g), false),
            Ok(None) => said("Goal created.\n\n"@, false),
            Err(e) => said("Failed to create the goal: "@ + e@, true),
        },
    }
}

fn failure(what: &str, cause: &str) -> (r: ToolResult)
    ensures
        r@ == said(what@ + cause@, true),
{
    let mut out = what.to_string();
    out.push_str(cause);
    ToolResult::error(out)
}

/// Answer a change that the store made, or refused. `outcome` holds the goal the
/// store made, where it made one.
pub fn changed(step: GoalStep, input: &GoalInput, outcome: &Result<Option<Goal>, String>) -> (r:
    ToolResult)
    ensures
        r@ == changed_answer(step@, *input, *outcome),
{
    match step {
        GoalStep::Finish(r) => r,
        GoalStep::SetStatus(status) => {
            if status == GoalStatus::Complete {
                match outcome {
                    Ok(_) => {
                        let mut out = "Goal marked complete.\n\nAudit summary: ".to_string();
                        let audit = trim_or_empty(&input.audit_summary);
                        out.push_str(&audit);
                        out.push_str("\n\nEvidence: ");
                        let evidence = trim_or_empty(&input.evidence);
                        out.push_str(&evidence);
                        ToolResult::success(out)
                    },
                    Err(e) => failure("Failed to mark the goal complete: ", e),
                }
            } else {
                match outcome {
                    Ok(_) => ToolResult::success(
                        "Goal resumed; it will continue on the next turn.".to_string(),
                    ),
                    Err(e) => failure("Failed to resume the goal: ", e),
                }
            }
        },
        GoalStep::Clear => match outcome {
            Ok(_) => ToolResult::success("Goal dropped.".to_string()),
            Err(e) => failure("Failed to drop the goal: ", e),
        },
        GoalStep::Create { .. } => match outcome {
            Ok(made) => {
                let mut out = "Goal created.\n\n".to_string();
                if let Some(g) = made {
                    let text = describe(g);
                    out.push_str(&text);
                }
                ToolResult::success(out)
            },
            Err(e) => failure("Failed to create the goal: ", e),
        },
    }
}

/// A goal is only ever marked complete with an audit and evidence, and only
/// while it is active.
pub proof fn completion_takes_an_audit(goal: Option<Goal>, input: GoalInput)
    requires
        goal_step(goal, input) == StepView::SetStatus(GoalStatus::Complete),
    ensures
        input.op@ == "complete"@,
        trimmed_or_empty(opt_view(input.audit_summary)).len() > 0,
        trimmed_or_empty(opt_view(input.evidence)).len() > 0,
        goal matches Some(g) && g.status == GoalStatus::Active,
{
}

/// A session that has a goal never gets a second one.
pub proof fn one_goal_at_a_time(goal: Option<Goal>, input: GoalInput)
    requires
        goal is Some,
    ensures
        !(goal_step(goal, input) is Create),
{
}

/// What each op does to the goal: reading changes nothing, dropping always clears, an
/// active goal is completed given an audit and evidence, any other but a complete one
/// is resumed, and one is created only where there is none.
pub proof fn what_an_op_does(goal: Option<Goal>, input: GoalInput)
    ensures
        input.op@ == "get"@ ==> goal_step(goal, input) == StepView::Finish(get_answer(goal)),
        input.op@ == "drop"@ ==> goal_step(goal, input) is Clear,
        input.op@ == "complete"@ && trimmed_or_empty(opt_view(input.audit_summary)).len() > 0
            && trimmed_or_empty(opt_view(input.evidence)).len() > 0 && goal is Some
            && goal->0.status == GoalStatus::Active ==> goal_step(goal, input)
            == StepView::SetStatus(GoalStatus::Complete),
        input.op@ == "resume"@ && goal is Some && goal->0.status != GoalStatus::Active
            && goal->0.status != GoalStatus::Complete ==> goal_step(goal, input)
            == StepView::SetStatus(GoalStatus::Active),
        input.op@ == "resume"@ && (goal is None || goal->0.status == GoalStatus::Active
            || goal->0.status == GoalStatus::Complete) ==> goal_step(goal, input) is Finish,
        input.op@ == "create"@ && goal is None && trimmed_or_empty(
            opt_view(input.objective),
        ).len() > 0 ==> goal_step(goal, input) == (StepView::Create {
            objective: trimmed_or_empty(opt_view(input.objective)),
            token_budget: input.token_budget,
        }),
{
    reveal_strlit("get");
    reveal_strlit("complete");
    reveal_strlit("resume");
    reveal_strlit("drop");
    reveal_strlit("create");
    assert("get"@[0] == 'g' && "complete"@[0] == 'c' && "resume"@[0] == 'r' && "drop"@[0] == 'd'
        && "create"@[0] == 'c');
    assert("complete"@[1] == 'o' && "create"@[1] == 'r');
}

/// The tokens left are what the budget has over what was used, and never less than none.
pub proof fn the_budget_is_what_is_left(budget: u64, used: u64)
    ensures
        used <= budget ==> tokens_left(budget, used) + used == budget,
        used > budget ==> tokens_left(budget, used) == 0,
{
}

} // verus!
