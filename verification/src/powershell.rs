//! Running PowerShell commands.
//!
//! Before anything is run the command is classified. The risk drives the
//! permission gate: a critical command is always blocked, a high one asks for
//! approval, a medium one asks where confirmation is wanted, and a low one goes
//! through the ordinary check.
use vstd::prelude::*;
use crate::output_filter::tee::{fit, fitting};
use crate::text::{
    byte_len, chars_of, count, decimal, join, join_with, number, opt_view, signed, signed_number,
    size, string_of, trim, trimmed, views, views_push,
};
use crate::{said, PermissionLevel, ResultView, ToolResult};

verus! {

pub struct PowerShellTool;

/// How long a command may run where it names no limit, in milliseconds.
pub const DEFAULT_TIMEOUT: u64 = 120_000;

/// The longest limit a command may ask for, in milliseconds.
pub const MAX_TIMEOUT: u64 = 600_000;

/// The most bytes of output that are shown whole.
pub const MAX_OUTPUT_LEN: usize = 100_000;

impl PowerShellTool {
    pub fn name(&self) -> (out: &'static str)
        ensures
            out@ == "PowerShell"@,
    {
        "PowerShell"
    }

    pub fn permission_level(&self) -> (out: PermissionLevel)
        ensures
            out == PermissionLevel::Execute,
    {
        PermissionLevel::Execute
    }

    /// Asks for permission itself.
    pub fn self_gates(&self) -> (out: bool)
        ensures
            out,
    {
        true
    }
}

/// How long a command may run where it names no limit.
pub fn default_timeout() -> (out: u64)
    ensures
        out == DEFAULT_TIMEOUT,
{
    DEFAULT_TIMEOUT
}

/// How long a command may run.
pub fn timeout_ms(asked: u64) -> (out: u64)
    ensures
        out == (if asked < MAX_TIMEOUT {
            asked
        } else {
            MAX_TIMEOUT
        }),
{
    if asked < MAX_TIMEOUT {
        asked
    } else {
        MAX_TIMEOUT
    }
}

/// How risky a command is.
#[derive(Debug, PartialEq, Eq, Clone, Copy, Structural)]
pub enum PsRiskLevel {
    Low,
    Medium,
    High,
    Critical,
}

/// The risk in a word.
pub open spec fn label(level: PsRiskLevel) -> Seq<char> {
    match level {
        PsRiskLevel::Critical => "Critical"@,
        PsRiskLevel::High => "High"@,
        PsRiskLevel::Medium => "Medium"@,
        PsRiskLevel::Low => "Low"@,
    }
}

/// The risk in a word.
pub fn risk_label(level: PsRiskLevel) -> (out: &'static str)
    ensures
        out@ == label(level),
{
    match level {
        PsRiskLevel::Critical => "Critical",
        PsRiskLevel::High => "High",
        PsRiskLevel::Medium => "Medium",
        PsRiskLevel::Low => "Low",
    }
}

/// What the risk means for the user.
pub open spec fn explanation(level: PsRiskLevel, command: Seq<char>) -> Seq<char> {
    match level {
        PsRiskLevel::Critical =>
        "PowerShell command classified as CRITICAL risk — execution blocked.\nReason: the command contains destructive or remote-code-execution patterns.\nCommand: "@
            + command,
        PsRiskLevel::High =>
        "[High risk] This may modify system-wide security policy, the registry (HKLM), user accounts, or firewall rules."@,
        PsRiskLevel::Medium =>
        "[Medium risk] This may delete files, control services, or make network requests."@,
        PsRiskLevel::Low => seq![],
    }
}

/// What the risk means for the user.
pub fn risk_explanation(level: PsRiskLevel, command: &str) -> (out: String)
    ensures
        out@ == explanation(level, command@),
{
    match level {
        PsRiskLevel::Critical => {
            let mut out =
                "PowerShell command classified as CRITICAL risk — execution blocked.\nReason: the command contains destructive or remote-code-execution patterns.\nCommand: ".to_string();
            out.push_str(command);
            out
        },
        PsRiskLevel::High =>
        "[High risk] This may modify system-wide security policy, the registry (HKLM), user accounts, or firewall rules.".to_string(),
        PsRiskLevel::Medium =>
        "[Medium risk] This may delete files, control services, or make network requests.".to_string(),
        PsRiskLevel::Low => String::new(),
    }
}

/// What stands between a command and its execution.
#[derive(Debug)]
pub enum PsGate {
    /// It is never executed.
    Blocked(ToolResult),
    /// The user is asked, with a description and what the risk means.
    Ask { description: String, details: String },
    /// The ordinary check, with a reason.
    Check { reason: String },
    /// Nothing.
    Open,
}

/// What a [`PsGate`] says.
#[verifier::ext_equal]
pub enum GateView {
    Blocked(ResultView),
    Ask { description: Seq<char>, details: Seq<char> },
    Check { reason: Seq<char> },
    Open,
}

impl View for PsGate {
    type V = GateView;

    open spec fn view(&self) -> GateView {
        match *self {
            PsGate::Blocked(r) => GateView::Blocked(r@),
            PsGate::Ask { description, details } => GateView::Ask {
                description: description@,
                details: details@,
            },
            PsGate::Check { reason } => GateView::Check { reason: reason@ },
            PsGate::Open => GateView::Open,
        }
    }
}

/// A question about a risky command.
pub open spec fn ask(
    level: PsRiskLevel,
    command: Seq<char>,
    description: Option<Seq<char>>,
) -> GateView {
    GateView::Ask {
        description: "["@ + label(level) + " risk] "@ + (match description {
            Some(d) => d,
            None => command,
        }),
        details: explanation(level, command),
    }
}

/// What stands between a command and its execution. `cautious` says whether the
/// permission mode is one that asks.
pub open spec fn gated(
    level: PsRiskLevel,
    command: Seq<char>,
    description: Option<Seq<char>>,
    require_confirmation: bool,
    cautious: bool,
) -> GateView {
    match level {
        PsRiskLevel::Critical => GateView::Blocked(said(explanation(level, command), true)),
        PsRiskLevel::High => ask(level, command, description),
        PsRiskLevel::Medium => if require_confirmation || cautious {
            ask(level, command, description)
        } else {
            GateView::Open
        },
        PsRiskLevel::Low => GateView::Check {
            reason: if description matches Some(d) && trimmed(d).len() > 0 {
                trimmed(description->Some_0)
            } else {
                "This will execute a PowerShell command."@
            },
        },
    }
}

fn question(level: PsRiskLevel, command: &str, description: &Option<String>) -> (g: PsGate)
    ensures
        g@ == ask(level, command@, opt_view(*description)),
{
    let mut text = "[".to_string();
    text.push_str(risk_label(level));
    text.push_str(" risk] ");
    match description {
        Some(d) => text.push_str(d),
        None => text.push_str(command),
    }
    PsGate::Ask { description: text, details: risk_explanation(level, command) }
}

/// Decide what stands between a command and its execution.
pub fn gate(
    level: PsRiskLevel,
    command: &str,
    description: &Option<String>,
    require_confirmation: bool,
    cautious: bool,
) -> (g: PsGate)
    ensures
        g@ == gated(level, command@, opt_view(*description), require_confirmation, cautious),
{
    match level {
        PsRiskLevel::Critical => PsGate::Blocked(
            ToolResult::error(risk_explanation(level, command)),
        ),
        PsRiskLevel::High => question(level, command, description),
        PsRiskLevel::Medium => {
            if require_confirmation || cautious {
                question(level, command, description)
            } else {
                PsGate::Open
            }
        },
        PsRiskLevel::Low => {
            if let Some(d) = description {
                let said = trim(d);
                if !said.as_str().is_empty() {
                    return PsGate::Check { reason: said };
                }
            }
            PsGate::Check { reason: "This will execute a PowerShell command.".to_string() }
        },
    }
}

/// A critical command is never executed, whatever else holds.
pub proof fn a_critical_command_is_blocked(
    command: Seq<char>,
    description: Option<Seq<char>>,
    require_confirmation: bool,
    cautious: bool,
)
    ensures
        gated(
            PsRiskLevel::Critical,
            command,
            description,
            require_confirmation,
            cautious,
        ) is Blocked,
{
}

/// A command of high risk always asks.
pub proof fn a_high_risk_asks(
    command: Seq<char>,
    description: Option<Seq<char>>,
    require_confirmation: bool,
    cautious: bool,
)
    ensures
        gated(PsRiskLevel::High, command, description, require_confirmation, cautious) is Ask,
{
}

// ---------------------------------------------------------------------------
// Output
// ---------------------------------------------------------------------------

/// What a command printed, its errors after its output.
pub open spec fn printed(stdout: Seq<Seq<char>>, stderr: Seq<Seq<char>>) -> Seq<char> {
    let out = join(stdout, "\n"@);
    let all = if stderr.len() == 0 {
        out
    } else if out.len() > 0 {
        out + "\n"@ + "STDERR:\n"@ + join(stderr, "\n"@)
    } else {
        "STDERR:\n"@ + join(stderr, "\n"@)
    };
    if all.len() == 0 {
        "(no output)"@
    } else {
        all
    }
}

/// What a command printed, its errors after its output.
pub fn combine(stdout: &Vec<String>, stderr: &Vec<String>) -> (out: String)
    ensures
        out@ == printed(views(stdout@), views(stderr@)),
{
    assert(views(stderr@).len() == stderr@.len());
    let mut out = join_with(stdout, "\n");
    if stderr.len() > 0 {
        let errors = join_with(stderr, "\n");
        if !out.as_str().is_empty() {
            out.push_str("\n");
            out.push_str("STDERR:\n");
            out.push_str(&errors);
        } else {
            let mut only = "STDERR:\n".to_string();
            only.push_str(&errors);
            out = only;
        }
    }
    if out.as_str().is_empty() {
        return "(no output)".to_string();
    }
    out
}

/// Half of what is shown whole.
pub open spec fn half() -> int {
    (MAX_OUTPUT_LEN / 2) as int
}

/// Whether a text falls apart after `n` bytes without cutting a character.
pub open spec fn falls_apart(s: Seq<char>, n: int) -> bool {
    byte_len(s.take(fitting(s, n))) == n
}

/// Whether a text that is too long to be shown whole can be cut where it is cut.
pub open spec fn cuts_cleanly(s: Seq<char>) -> bool {
    byte_len(s) <= MAX_OUTPUT_LEN || (falls_apart(s, half()) && falls_apart(
        s,
        byte_len(s) - half(),
    ))
}

/// A text that is too long, with its middle left out.
pub open spec fn shortened(s: Seq<char>) -> Seq<char> {
    if byte_len(s) <= MAX_OUTPUT_LEN {
        s
    } else {
        s.take(fitting(s, half())) + "\n\n... ("@ + decimal((byte_len(s) - MAX_OUTPUT_LEN) as nat)
            + " characters truncated) ...\n\n"@ + s.skip(fitting(s, byte_len(s) - half()))
    }
}

/// Whether a text can be shortened without cutting a character.
pub fn can_shorten(s: &str) -> (r: bool)
    ensures
        r == cuts_cleanly(s@),
{
    let total: usize = size(s);
    if total <= MAX_OUTPUT_LEN {
        return true;
    }
    let x = chars_of(s);
    let a: usize = fit(&x, MAX_OUTPUT_LEN / 2);
    let b: usize = fit(&x, total - MAX_OUTPUT_LEN / 2);
    let first = string_of(&x, 0, a);
    let second = string_of(&x, 0, b);
    assert(first@ =~= s@.take(a as int));
    assert(second@ =~= s@.take(b as int));
    size(&first) == MAX_OUTPUT_LEN / 2 && size(&second) == total - MAX_OUTPUT_LEN / 2
}

/// Leave the middle of a long text out.
pub fn shorten(s: &str) -> (out: String)
    requires
        cuts_cleanly(s@),
    ensures
        out@ == shortened(s@),
{
    let total: usize = size(s);
    if total <= MAX_OUTPUT_LEN {
        return s.to_string();
    }
    let x = chars_of(s);
    let a: usize = fit(&x, MAX_OUTPUT_LEN / 2);
    let b: usize = fit(&x, total - MAX_OUTPUT_LEN / 2);
    let mut out = string_of(&x, 0, a);
    assert(out@ =~= s@.take(a as int));
    out.push_str("\n\n... (");
    out.push_str(&count(total - MAX_OUTPUT_LEN));
    out.push_str(" characters truncated) ...\n\n");
    let end = string_of(&x, b, x.len());
    assert(end@ =~= s@.skip(b as int));
    out.push_str(&end);
    out
}

/// What a command that ended answers.
pub open spec fn ended(exit_code: i32, output: Seq<char>) -> ResultView {
    if exit_code != 0 {
        said(
            "PowerShell exited with code "@ + signed(exit_code as int) + "\n"@ + shortened(output),
            true,
        )
    } else {
        said(shortened(output), false)
    }
}

/// Answer a command that ended.
pub fn finished(exit_code: i32, output: &str) -> (r: ToolResult)
    requires
        cuts_cleanly(output@),
    ensures
        r@ == ended(exit_code, output@),
{
    let shown = shorten(output);
    if exit_code != 0 {
        let mut out = "PowerShell exited with code ".to_string();
        out.push_str(&signed_number(exit_code as i64));
        out.push_str("\n");
        out.push_str(&shown);
        ToolResult::error(out)
    } else {
        ToolResult::success(shown)
    }
}

/// Answer a command that ran too long.
pub fn timed_out(timeout_ms: u64) -> (r: ToolResult)
    ensures
        r@ == said(
            "PowerShell command timed out after "@ + decimal(timeout_ms as nat) + "ms"@,
            true,
        ),
{
    let mut out = "PowerShell command timed out after ".to_string();
    out.push_str(&number(timeout_ms));
    out.push_str("ms");
    ToolResult::error(out)
}

/// Answer a command that did not start.
pub fn unstarted(cause: &str) -> (r: ToolResult)
    ensures
        r@ == said("Failed to spawn PowerShell: "@ + cause@, true),
{
    let mut out = "Failed to spawn PowerShell: ".to_string();
    out.push_str(cause);
    ToolResult::error(out)
}

/// The interpreter and what it is called with.
pub fn invocation(windows: bool, command: &str) -> (r: (String, Vec<String>))
    ensures
        r.0@ == (if windows {
            "powershell"@
        } else {
            "pwsh"@
        }),
        views(r.1@) == seq!["-NoProfile"@, "-NonInteractive"@, "-Command"@, command@],
{
    broadcast use views_push;

    let exe = if windows {
        "powershell"
    } else {
        "pwsh"
    };
    let mut args: Vec<String> = Vec::new();
    args.push("-NoProfile".to_string());
    args.push("-NonInteractive".to_string());
    args.push("-Command".to_string());
    args.push(command.to_string());
    assert(views(args@) =~= seq!["-NoProfile"@, "-NonInteractive"@, "-Command"@, command@]);
    (exe.to_string(), args)
}

/// A command of medium risk is asked about only where confirming is required or the
/// session is cautious; one of low risk is checked like any other.
pub proof fn what_a_risk_calls_for(
    command: Seq<char>,
    description: Option<Seq<char>>,
    require_confirmation: bool,
    cautious: bool,
)
    ensures
        gated(PsRiskLevel::Medium, command, description, require_confirmation, cautious) is Ask
            <==> require_confirmation || cautious,
        !(require_confirmation || cautious) ==> gated(
            PsRiskLevel::Medium,
            command,
            description,
            require_confirmation,
            cautious,
        ) is Open,
        gated(PsRiskLevel::Low, command, description, require_confirmation, cautious) is Check,
{
}

/// Everything a command printed is shown: its output first, its errors behind it under
/// a heading of their own.
pub proof fn all_that_was_printed_is_shown(stdout: Seq<Seq<char>>, stderr: Seq<Seq<char>>)
    ensures
        stderr.len() == 0 && join(stdout, "\n"@).len() > 0 ==> printed(stdout, stderr) == join(
            stdout,
            "\n"@,
        ),
        stderr.len() > 0 && join(stdout, "\n"@).len() > 0 ==> printed(stdout, stderr) == join(
            stdout,
            "\n"@,
        ) + ("\nSTDERR:\n"@ + join(stderr, "\n"@)),
        stderr.len() > 0 && join(stdout, "\n"@).len() == 0 ==> printed(stdout, stderr)
            == "STDERR:\n"@ + join(stderr, "\n"@),
        stderr.len() == 0 && join(stdout, "\n"@).len() == 0 ==> printed(stdout, stderr)
            == "(no output)"@,
{
    reveal_strlit("\n");
    reveal_strlit("STDERR:\n");
    reveal_strlit("\nSTDERR:\n");
    assert("\nSTDERR:\n"@ =~= "\n"@ + "STDERR:\n"@);
    let out = join(stdout, "\n"@);
    let err = join(stderr, "\n"@);
    assert(out + "\n"@ + "STDERR:\n"@ + err =~= out + ("\nSTDERR:\n"@ + err));
}

/// A command that comes to another code than zero is an error that tells the code.
pub proof fn a_code_tells_of_failure(exit_code: i32, output: Seq<char>)
    ensures
        ended(exit_code, output).is_error <==> exit_code != 0,
        exit_code != 0 ==> ("PowerShell exited with code "@ + signed(
            exit_code as int,
        )).is_prefix_of(ended(exit_code, output).content),
        byte_len(output) <= MAX_OUTPUT_LEN && exit_code == 0 ==> ended(exit_code, output).content
            == output,
{
    if exit_code != 0 {
        let head = "PowerShell exited with code "@ + signed(exit_code as int);
        let whole = ended(exit_code, output).content;
        assert(head =~= whole.take(head.len() as int));
    }
}

/// A long output keeps its beginning and its end, as much of each, with a line between
/// them that tells how much is missing.
pub proof fn a_long_output_keeps_both_ends(s: Seq<char>, a: int, b: int)
    requires
        byte_len(s) > 100_000,
        a == fitting(s, 50_000),
        b == fitting(s, byte_len(s) - 50_000),
        0 <= a <= s.len(),
        0 <= b <= s.len(),
    ensures
        s.take(a).is_prefix_of(shortened(s)),
        s.skip(b).is_suffix_of(shortened(s)),
        shortened(s) == s.take(a) + ("\n\n... ("@ + decimal((byte_len(s) - 100_000) as nat)
            + " characters truncated) ...\n\n"@) + s.skip(b),
        cuts_cleanly(s) ==> byte_len(s.take(a)) == 50_000 && byte_len(s.take(b)) == byte_len(s)
            - 50_000,
        byte_len(s.take(a)) == 50_000 && byte_len(s.take(b)) == byte_len(s) - 50_000
            ==> cuts_cleanly(s),
{
    let whole = shortened(s);
    assert(whole =~= s.take(a) + ("\n\n... ("@ + decimal((byte_len(s) - 100_000) as nat)
        + " characters truncated) ...\n\n"@) + s.skip(b));
    assert(s.take(a) =~= whole.take(a));
    assert(s.skip(b) =~= whole.skip(whole.len() - s.skip(b).len()));
}

/// An output that fits is shown as it is, and can always be.
pub proof fn a_short_output_is_shown_whole(s: Seq<char>)
    requires
        byte_len(s) <= 100_000,
    ensures
        shortened(s) == s,
        cuts_cleanly(s),
{
}

} // verus!
