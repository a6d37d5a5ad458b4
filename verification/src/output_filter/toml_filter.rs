//! Applies declared filter rules to command output.
//!
//! A filter is a pipeline of stages, applied in this order:
//!   1. strip_ansi           — remove ANSI escape codes
//!   2. replace              — regex substitutions, line-by-line, chainable
//!   3. match_output         — short-circuit: if blob matches a pattern, return message
//!   4. strip/keep_lines     — filter lines by regex
//!   5. truncate_lines_at    — truncate each line to N chars
//!   6. head/tail_lines      — keep first/last N lines
//!   7. max_lines            — absolute line cap
//!   8. on_empty             — message if result is empty
use vstd::prelude::*;
use crate::pattern::{
    any_matches, regex_error, regex_matches, regex_replaced, regex_set_error, Expression, ExpressionSet,
};
use crate::text::{
    copy_strings, count, decimal, is_blank, join, join_with, kept_one_more, lines, lines_of,
    lines_of_joined, opt_nat, opt_view, proper_lines, same, trimmed, views, views_push,
};
use crate::output_filter::{ansi_pattern, plain, strip_with, truncate, truncated};

verus! {

// ---------------------------------------------------------------------------
// What a filter declares
// ---------------------------------------------------------------------------

/// A match-output rule: if `pattern` matches anywhere in the full output blob,
/// the filter short-circuits and returns `message` immediately. First matching
/// rule wins. Optional `unless`: if this regex also matches the blob, the rule
/// is skipped (prevents short-circuiting when errors or warnings are present).
#[derive(Debug)]
pub struct MatchOutputRule {
    pub pattern: String,
    pub message: String,
    pub unless: Option<String>,
}

/// A regex substitution applied line-by-line. Rules are chained sequentially:
/// rule N+1 operates on the output of rule N. Backreferences (`$1`, ...) work.
#[derive(Debug)]
pub struct ReplaceRule {
    pub pattern: String,
    pub replacement: String,
}

/// One filter, as a filter file declares it.
#[derive(Debug)]
pub struct TomlFilterDef {
    pub description: Option<String>,
    pub match_command: String,
    pub strip_ansi: bool,
    /// Regex substitutions, applied line-by-line before match_output (stage 2).
    pub replace: Vec<ReplaceRule>,
    /// Short-circuit rules: if the full output blob matches, return the message (stage 3).
    pub match_output: Vec<MatchOutputRule>,
    pub strip_lines_matching: Vec<String>,
    pub keep_lines_matching: Vec<String>,
    pub truncate_lines_at: Option<usize>,
    pub head_lines: Option<usize>,
    pub tail_lines: Option<usize>,
    pub max_lines: Option<usize>,
    pub on_empty: Option<String>,
    /// When true, stderr is captured and merged with stdout before filtering.
    pub filter_stderr: bool,
}

/// A filter file: its schema version and its filters with their names.
#[derive(Debug)]
pub struct TomlFilterFile {
    pub schema_version: u32,
    pub filters: Vec<(String, TomlFilterDef)>,
}

/// A substitution: the expression, and what stands in for a match.
#[verifier::ext_equal]
pub struct Substitution {
    pub pattern: Seq<char>,
    pub replacement: Seq<char>,
}

/// A short-circuit: the expression, the message, and the expression that blocks it.
#[verifier::ext_equal]
pub struct ShortCircuit {
    pub pattern: Seq<char>,
    pub message: Seq<char>,
    pub unless: Option<Seq<char>>,
}

/// Which lines pass: all of them, those that no expression matches, or those
/// that one matches.
#[verifier::ext_equal]
pub enum Selection {
    All,
    Strip(Seq<Seq<char>>),
    Keep(Seq<Seq<char>>),
}

/// What a filter does, whether declared or compiled.
#[verifier::ext_equal]
pub struct FilterRules {
    pub match_command: Seq<char>,
    pub strip_ansi: bool,
    pub replace: Seq<Substitution>,
    pub match_output: Seq<ShortCircuit>,
    pub selection: Selection,
    pub truncate_at: Option<nat>,
    pub head: Option<nat>,
    pub tail: Option<nat>,
    pub max: Option<nat>,
    pub on_empty: Option<Seq<char>>,
}

impl View for ReplaceRule {
    type V = Substitution;

    open spec fn view(&self) -> Substitution {
        Substitution { pattern: self.pattern@, replacement: self.replacement@ }
    }
}

impl View for MatchOutputRule {
    type V = ShortCircuit;

    open spec fn view(&self) -> ShortCircuit {
        ShortCircuit {
            pattern: self.pattern@,
            message: self.message@,
            unless: opt_view(self.unless),
        }
    }
}

impl View for TomlFilterDef {
    type V = FilterRules;

    open spec fn view(&self) -> FilterRules {
        FilterRules {
            match_command: self.match_command@,
            strip_ansi: self.strip_ansi,
            replace: Seq::new(self.replace@.len(), |i: int| self.replace@[i]@),
            match_output: Seq::new(self.match_output@.len(), |i: int| self.match_output@[i]@),
            selection: if self.strip_lines_matching@.len() > 0 {
                Selection::Strip(views(self.strip_lines_matching@))
            } else if self.keep_lines_matching@.len() > 0 {
                Selection::Keep(views(self.keep_lines_matching@))
            } else {
                Selection::All
            },
            truncate_at: opt_nat(self.truncate_lines_at),
            head: opt_nat(self.head_lines),
            tail: opt_nat(self.tail_lines),
            max: opt_nat(self.max_lines),
            on_empty: opt_view(self.on_empty),
        }
    }
}

// ---------------------------------------------------------------------------
// A compiled filter
// ---------------------------------------------------------------------------

/// A short-circuit rule whose expressions are ready.
#[derive(Debug)]
pub struct CompiledMatchOutputRule {
    pub pattern: Expression,
    pub message: String,
    pub unless: Option<Expression>,
}

impl View for CompiledMatchOutputRule {
    type V = ShortCircuit;

    open spec fn view(&self) -> ShortCircuit {
        ShortCircuit {
            pattern: self.pattern@,
            message: self.message@,
            unless: match self.unless {
                Some(p) => Some(p@),
                None => None,
            },
        }
    }
}

/// A substitution whose expression is ready.
#[derive(Debug)]
pub struct CompiledReplaceRule {
    pub pattern: Expression,
    pub replacement: String,
}

impl View for CompiledReplaceRule {
    type V = Substitution;

    open spec fn view(&self) -> Substitution {
        Substitution { pattern: self.pattern@, replacement: self.replacement@ }
    }
}

/// Which lines a filter drops.
#[derive(Debug)]
pub enum LineFilter {
    All,
    Strip(ExpressionSet),
    Keep(ExpressionSet),
}

impl View for LineFilter {
    type V = Selection;

    open spec fn view(&self) -> Selection {
        match *self {
            LineFilter::All => Selection::All,
            LineFilter::Strip(set) => Selection::Strip(set@),
            LineFilter::Keep(set) => Selection::Keep(set@),
        }
    }
}

/// A filter that has been compiled — all regexes are ready.
#[derive(Debug)]
pub struct CompiledFilter {
    pub name: String,
    pub description: Option<String>,
    pub match_regex: Expression,
    pub strip_ansi: bool,
    pub replace: Vec<CompiledReplaceRule>,
    pub match_output: Vec<CompiledMatchOutputRule>,
    pub line_filter: LineFilter,
    pub truncate_lines_at: Option<usize>,
    pub head_lines: Option<usize>,
    pub tail_lines: Option<usize>,
    pub max_lines: Option<usize>,
    pub on_empty: Option<String>,
    /// When true, the runner should capture stderr and merge it with stdout.
    pub filter_stderr: bool,
}

impl View for CompiledFilter {
    type V = FilterRules;

    open spec fn view(&self) -> FilterRules {
        FilterRules {
            match_command: self.match_regex@,
            strip_ansi: self.strip_ansi,
            replace: Seq::new(self.replace@.len(), |i: int| self.replace@[i]@),
            match_output: Seq::new(self.match_output@.len(), |i: int| self.match_output@[i]@),
            selection: self.line_filter@,
            truncate_at: opt_nat(self.truncate_lines_at),
            head: opt_nat(self.head_lines),
            tail: opt_nat(self.tail_lines),
            max: opt_nat(self.max_lines),
            on_empty: opt_view(self.on_empty),
        }
    }
}

// ---------------------------------------------------------------------------
// Compiling
// ---------------------------------------------------------------------------

/// Why one of the substitutions from `from` on does not compile.
pub open spec fn replace_error(rules: Seq<Substitution>, from: int) -> Option<Seq<char>>
    decreases rules.len() - from,
{
    if from < 0 || from >= rules.len() {
        None
    } else {
        match regex_error(rules[from].pattern) {
            Some(e) => Some(
                "invalid replace pattern '"@ + rules[from].pattern + "': "@ + e,
            ),
            None => replace_error(rules, from + 1),
        }
    }
}

/// Why a short-circuit rule does not compile.
pub open spec fn rule_error(rule: ShortCircuit) -> Option<Seq<char>> {
    match regex_error(rule.pattern) {
        Some(e) => Some("invalid match_output pattern '"@ + rule.pattern + "': "@ + e),
        None => match rule.unless {
            None => None,
            Some(unless) => match regex_error(unless) {
                Some(e) => Some("invalid match_output unless pattern '"@ + unless + "': "@ + e),
                None => None,
            },
        },
    }
}

/// Why one of the short-circuit rules from `from` on does not compile.
pub open spec fn match_output_error(rules: Seq<ShortCircuit>, from: int) -> Option<Seq<char>>
    decreases rules.len() - from,
{
    if from < 0 || from >= rules.len() {
        None
    } else {
        match rule_error(rules[from]) {
            Some(e) => Some(e),
            None => match_output_error(rules, from + 1),
        }
    }
}

/// Why the expressions that select lines do not compile.
pub open spec fn selection_error(selection: Selection) -> Option<Seq<char>> {
    match selection {
        Selection::All => None,
        Selection::Strip(sources) => match regex_set_error(sources) {
            Some(e) => Some("invalid strip_lines_matching regex: "@ + e),
            None => None,
        },
        Selection::Keep(sources) => match regex_set_error(sources) {
            Some(e) => Some("invalid keep_lines_matching regex: "@ + e),
            None => None,
        },
    }
}

/// Why the expressions of a filter do not compile: the first that does not.
pub open spec fn expression_error(rules: FilterRules) -> Option<Seq<char>> {
    match regex_error(rules.match_command) {
        Some(e) => Some("invalid match_command regex: "@ + e),
        None => match replace_error(rules.replace, 0) {
            Some(e) => Some(e),
            None => match match_output_error(rules.match_output, 0) {
                Some(e) => Some(e),
                None => selection_error(rules.selection),
            },
        },
    }
}

/// Why a declared filter does not compile.
pub open spec fn defect(def: TomlFilterDef) -> Option<Seq<char>> {
    if def.strip_lines_matching@.len() > 0 && def.keep_lines_matching@.len() > 0 {
        Some("strip_lines_matching and keep_lines_matching are mutually exclusive"@)
    } else {
        expression_error(def@)
    }
}

/// `head`, the quoted expression, and the error behind it.
fn quoted_error(head: &str, pattern: &str, error: &str) -> (out: String)
    ensures
        out@ == head@ + pattern@ + "': "@ + error@,
{
    let mut out = head.to_string();
    out.push_str(pattern);
    out.push_str("': ");
    out.push_str(error);
    out
}

fn compile_replace(rules: &Vec<ReplaceRule>) -> (r: Result<Vec<CompiledReplaceRule>, String>)
    ensures
        ({
            let declared = Seq::new(rules@.len(), |i: int| rules@[i]@);
            match r {
                Ok(v) => replace_error(declared, 0) is None && Seq::new(v@.len(), |i: int| v@[i]@)
                    == declared,
                Err(e) => replace_error(declared, 0) == Some(e@),
            }
        }),
{
    let ghost declared = Seq::new(rules@.len(), |i: int| rules@[i]@);
    let mut out: Vec<CompiledReplaceRule> = Vec::new();
    let mut i: usize = 0;
    while i < rules.len()
        invariant
            i <= rules.len(),
            declared == Seq::new(rules@.len(), |i: int| rules@[i]@),
            out@.len() == i,
            forall|j: int| 0 <= j < i ==> out@[j]@ == declared[j],
            replace_error(declared, 0) == replace_error(declared, i as int),
        decreases rules.len() - i,
    {
        match Expression::compile(&rules[i].pattern) {
            Ok(pattern) => {
                out.push(
                    CompiledReplaceRule { pattern, replacement: rules[i].replacement.clone() },
                );
            },
            Err(error) => {
                return Err(
                    quoted_error("invalid replace pattern '", &rules[i].pattern, &error),
                );
            },
        }
        i += 1;
    }
    assert(Seq::new(out@.len(), |i: int| out@[i]@) =~= declared);
    Ok(out)
}

fn compile_rule(rule: &MatchOutputRule) -> (r: Result<CompiledMatchOutputRule, String>)
    ensures
        match r {
            Ok(c) => rule_error(rule@) is None && c@ == rule@,
            Err(e) => rule_error(rule@) == Some(e@),
        },
{
    let pattern = match Expression::compile(&rule.pattern) {
        Ok(p) => p,
        Err(error) => {
            return Err(quoted_error("invalid match_output pattern '", &rule.pattern, &error));
        },
    };
    let unless = match &rule.unless {
        None => None,
        Some(u) => match Expression::compile(u) {
            Ok(p) => Some(p),
            Err(error) => {
                return Err(quoted_error("invalid match_output unless pattern '", u, &error));
            },
        },
    };
    Ok(CompiledMatchOutputRule { pattern, message: rule.message.clone(), unless })
}

fn compile_match_output(rules: &Vec<MatchOutputRule>) -> (r: Result<
    Vec<CompiledMatchOutputRule>,
    String,
>)
    ensures
        ({
            let declared = Seq::new(rules@.len(), |i: int| rules@[i]@);
            match r {
                Ok(v) => match_output_error(declared, 0) is None && Seq::new(
                    v@.len(),
                    |i: int| v@[i]@,
                ) == declared,
                Err(e) => match_output_error(declared, 0) == Some(e@),
            }
        }),
{
    let ghost declared = Seq::new(rules@.len(), |i: int| rules@[i]@);
    let mut out: Vec<CompiledMatchOutputRule> = Vec::new();
    let mut i: usize = 0;
    while i < rules.len()
        invariant
            i <= rules.len(),
            declared == Seq::new(rules@.len(), |i: int| rules@[i]@),
            out@.len() == i,
            forall|j: int| 0 <= j < i ==> out@[j]@ == declared[j],
            match_output_error(declared, 0) == match_output_error(declared, i as int),
        decreases rules.len() - i,
    {
        match compile_rule(&rules[i]) {
            Ok(rule) => {
                out.push(rule);
            },
            Err(error) => {
                return Err(error);
            },
        }
        i += 1;
    }
    assert(Seq::new(out@.len(), |i: int| out@[i]@) =~= declared);
    Ok(out)
}

fn compile_line_filter(strip: &Vec<String>, keep: &Vec<String>) -> (r: Result<LineFilter, String>)
    ensures
        ({
            let declared = if strip@.len() > 0 {
                Selection::Strip(views(strip@))
            } else if keep@.len() > 0 {
                Selection::Keep(views(keep@))
            } else {
                Selection::All
            };
            match r {
                Ok(f) => selection_error(declared) is None && f@ == declared,
                Err(e) => selection_error(declared) == Some(e@),
            }
        }),
{
    if strip.len() > 0 {
        match ExpressionSet::compile(strip) {
            Ok(set) => Ok(LineFilter::Strip(set)),
            Err(error) => {
                let mut e = "invalid strip_lines_matching regex: ".to_string();
                e.push_str(&error);
                Err(e)
            },
        }
    } else if keep.len() > 0 {
        match ExpressionSet::compile(keep) {
            Ok(set) => Ok(LineFilter::Keep(set)),
            Err(error) => {
                let mut e = "invalid keep_lines_matching regex: ".to_string();
                e.push_str(&error);
                Err(e)
            },
        }
    } else {
        Ok(LineFilter::All)
    }
}

/// Compiles a declared filter, or says what is wrong with it.
///
/// `strip_lines_matching` and `keep_lines_matching` cannot both be set.
pub fn compile_filter(name: String, def: &TomlFilterDef) -> (r: Result<CompiledFilter, String>)
    ensures
        match r {
            Ok(f) => {
                &&& defect(*def) is None
                &&& f@ == def@
                &&& f.name@ == name@
                &&& opt_view(f.description) == opt_view(def.description)
                &&& f.max_lines == def.max_lines
                &&& f.filter_stderr == def.filter_stderr
            },
            Err(e) => defect(*def) == Some(e@),
        },
{
    if def.strip_lines_matching.len() > 0 && def.keep_lines_matching.len() > 0 {
        return Err(
            "strip_lines_matching and keep_lines_matching are mutually exclusive".to_string(),
        );
    }
    let match_regex = match Expression::compile(&def.match_command) {
        Ok(p) => p,
        Err(error) => {
            let mut e = "invalid match_command regex: ".to_string();
            e.push_str(&error);
            return Err(e);
        },
    };
    let replace = match compile_replace(&def.replace) {
        Ok(v) => v,
        Err(error) => {
            return Err(error);
        },
    };
    let match_output = match compile_match_output(&def.match_output) {
        Ok(v) => v,
        Err(error) => {
            return Err(error);
        },
    };
    let line_filter = match compile_line_filter(
        &def.strip_lines_matching,
        &def.keep_lines_matching,
    ) {
        Ok(f) => f,
        Err(error) => {
            return Err(error);
        },
    };
    let f = CompiledFilter {
        name,
        description: def.description.clone(),
        match_regex,
        strip_ansi: def.strip_ansi,
        replace,
        match_output,
        line_filter,
        truncate_lines_at: def.truncate_lines_at,
        head_lines: def.head_lines,
        tail_lines: def.tail_lines,
        max_lines: def.max_lines,
        on_empty: def.on_empty.clone(),
        filter_stderr: def.filter_stderr,
    };
    assert(f@ =~= def@);
    Ok(f)
}

// ---------------------------------------------------------------------------
// Filter files
// ---------------------------------------------------------------------------

/// The schema version this crate reads.
pub const SCHEMA_VERSION: u32 = 1;

/// The filters of `filters[..n]` that compile, by position.
pub open spec fn sound(filters: Seq<(String, TomlFilterDef)>, n: int) -> Seq<int>
    decreases n,
{
    if n <= 0 {
        seq![]
    } else if defect(filters[n - 1].1) is None {
        sound(filters, n - 1).push(n - 1)
    } else {
        sound(filters, n - 1)
    }
}

/// The filters of `filters[..n]` that do not compile, by position.
pub open spec fn unsound(filters: Seq<(String, TomlFilterDef)>, n: int) -> Seq<int>
    decreases n,
{
    if n <= 0 {
        seq![]
    } else if defect(filters[n - 1].1) is Some {
        unsound(filters, n - 1).push(n - 1)
    } else {
        unsound(filters, n - 1)
    }
}

/// The warning about a filter that does not compile.
pub open spec fn warning(name: Seq<char>, source: Seq<char>, error: Seq<char>) -> Seq<char> {
    "filter '"@ + name + "' in "@ + source + ": "@ + error
}

/// Whether a compiled filter is that of a declaration: its name, its description,
/// what it does and whether it takes in stderr.
pub open spec fn compiled_from(f: CompiledFilter, declared: (String, TomlFilterDef)) -> bool {
    &&& f.name@ == declared.0@
    &&& f@ == declared.1@
    &&& opt_view(f.description) == opt_view(declared.1.description)
    &&& f.max_lines == declared.1.max_lines
    &&& f.filter_stderr == declared.1.filter_stderr
}

/// The filters of a file, compiled in the file's order, and a warning for each
/// one that does not compile. A file of another schema version is refused.
pub fn compile_file(file: &TomlFilterFile, source: &str) -> (r: Result<
    (Vec<CompiledFilter>, Vec<String>),
    String,
>)
    ensures
        match r {
            Ok((compiled, warnings)) => {
                let good = sound(file.filters@, file.filters@.len() as int);
                let bad = unsound(file.filters@, file.filters@.len() as int);
                &&& file.schema_version == SCHEMA_VERSION
                &&& compiled@.len() == good.len()
                &&& forall|k: int|
                    0 <= k < good.len() ==> compiled_from(
                        #[trigger] compiled@[k],
                        file.filters@[good[k]],
                    )
                &&& warnings@.len() == bad.len()
                &&& forall|k: int|
                    0 <= k < bad.len() ==> (#[trigger] warnings@[k])@ == warning(
                        file.filters@[bad[k]].0@,
                        source@,
                        defect(file.filters@[bad[k]].1)->0,
                    )
            },
            Err(e) => file.schema_version != SCHEMA_VERSION && e@ == "unsupported schema_version "@
                + decimal(file.schema_version as nat) + " in "@ + source@ + " (expected 1)"@,
        },
{
    if file.schema_version != SCHEMA_VERSION {
        let mut e = "unsupported schema_version ".to_string();
        let version = count(file.schema_version as usize);
        e.push_str(&version);
        e.push_str(" in ");
        e.push_str(source);
        e.push_str(" (expected 1)");
        return Err(e);
    }
    let mut compiled: Vec<CompiledFilter> = Vec::new();
    let mut warnings: Vec<String> = Vec::new();
    let mut i: usize = 0;
    while i < file.filters.len()
        invariant
            i <= file.filters@.len(),
            compiled@.len() == sound(file.filters@, i as int).len(),
            forall|k: int|
                0 <= k < compiled@.len() ==> compiled_from(
                    #[trigger] compiled@[k],
                    file.filters@[sound(file.filters@, i as int)[k]],
                ),
            warnings@.len() == unsound(file.filters@, i as int).len(),
            forall|k: int|
                0 <= k < warnings@.len() ==> (#[trigger] warnings@[k])@ == warning(
                    file.filters@[unsound(file.filters@, i as int)[k]].0@,
                    source@,
                    defect(file.filters@[unsound(file.filters@, i as int)[k]].1)->0,
                ),
        decreases file.filters.len() - i,
    {
        let (name, def) = &file.filters[i];
        match compile_filter(name.clone(), def) {
            Ok(f) => {
                compiled.push(f);
            },
            Err(error) => {
                let mut w = "filter '".to_string();
                w.push_str(name);
                w.push_str("' in ");
                w.push_str(source);
                w.push_str(": ");
                w.push_str(&error);
                warnings.push(w);
            },
        }
        i += 1;
    }
    Ok((compiled, warnings))
}

// ---------------------------------------------------------------------------
// Finding a filter
// ---------------------------------------------------------------------------

/// The first filter at or after `from` whose expression matches the command.
pub open spec fn matching_from(filters: Seq<CompiledFilter>, command: Seq<char>, from: int) -> Option<
    int,
>
    decreases filters.len() - from,
{
    if from < 0 || from >= filters.len() {
        None
    } else if regex_matches(filters[from]@.match_command, command) {
        Some(from)
    } else {
        matching_from(filters, command, from + 1)
    }
}

/// The first filter whose expression matches the command.
pub open spec fn first_matching(filters: Seq<CompiledFilter>, command: Seq<char>) -> Option<int> {
    matching_from(filters, command, 0)
}

pub proof fn none_matching(filters: Seq<CompiledFilter>, command: Seq<char>)
    requires
        forall|i: int|
            0 <= i < filters.len() ==> !regex_matches(
                (#[trigger] filters[i])@.match_command,
                command,
            ),
    ensures
        first_matching(filters, command) is None,
{
    none_matching_from(filters, command, 0);
}

proof fn none_matching_from(filters: Seq<CompiledFilter>, command: Seq<char>, from: int)
    requires
        0 <= from,
        forall|i: int|
            0 <= i < filters.len() ==> !regex_matches(
                (#[trigger] filters[i])@.match_command,
                command,
            ),
    ensures
        matching_from(filters, command, from) is None,
    decreases filters.len() - from,
{
    if from < filters.len() {
        none_matching_from(filters, command, from + 1);
    }
}

/// Find the first matching filter in a slice.
pub fn find_filter_in<'a>(command: &str, filters: &'a [CompiledFilter]) -> (r: Option<
    &'a CompiledFilter,
>)
    ensures
        match first_matching(filters@, command@) {
            Some(i) => 0 <= i < filters@.len() && r == Some(&filters@[i]),
            None => r is None,
        },
{
    let mut i: usize = 0;
    while i < filters.len()
        invariant
            i <= filters@.len(),
            first_matching(filters@, command@) == matching_from(filters@, command@, i as int),
        decreases filters.len() - i,
    {
        if filters[i].match_regex.is_match(command) {
            return Some(&filters[i]);
        }
        i += 1;
    }
    None
}

/// The declared expressions that match commands, in the file's order. A file of
/// another schema version declares none.
pub open spec fn command_patterns(file: TomlFilterFile) -> Seq<Seq<char>> {
    if file.schema_version == SCHEMA_VERSION {
        Seq::new(file.filters@.len(), |i: int| file.filters@[i].1.match_command@)
    } else {
        seq![]
    }
}

pub fn match_patterns_in(file: &TomlFilterFile) -> (out: Vec<String>)
    ensures
        views(out@) == command_patterns(*file),
{
    let mut out: Vec<String> = Vec::new();
    if file.schema_version == SCHEMA_VERSION {
        let mut i: usize = 0;
        while i < file.filters.len()
            invariant
                i <= file.filters@.len(),
                out@.len() == i,
                forall|j: int| 0 <= j < i ==> out@[j]@ == file.filters@[j].1.match_command@,
            decreases file.filters.len() - i,
        {
            out.push(file.filters[i].1.match_command.clone());
            i += 1;
        }
    }
    assert(views(out@) =~= command_patterns(*file));
    out
}

/// The expressions of `sources` that compile.
pub open spec fn valid(sources: Seq<Seq<char>>) -> Seq<Seq<char>>
    decreases sources.len(),
{
    if sources.len() == 0 {
        seq![]
    } else if regex_error(sources.last()) is None {
        valid(sources.drop_last()).push(sources.last())
    } else {
        valid(sources.drop_last())
    }
}

/// The expressions the pre-check goes by: all of them where they compile
/// together, else those that compile alone, else none.
pub open spec fn match_set(sources: Seq<Seq<char>>) -> Seq<Seq<char>> {
    if regex_set_error(sources) is None {
        sources
    } else if regex_set_error(valid(sources)) is None {
        valid(sources)
    } else {
        seq![]
    }
}

/// The set that says whether a command has a filter, or none where no
/// expression can be used.
pub fn build_match_set(patterns: &Vec<String>) -> (r: Option<ExpressionSet>)
    ensures
        match r {
            Some(set) => set@ == match_set(views(patterns@)),
            None => match_set(views(patterns@)) == Seq::<Seq<char>>::empty(),
        },
{
    broadcast use views_push;

    if let Ok(set) = ExpressionSet::compile(patterns) {
        return Some(set);
    }
    let mut usable: Vec<String> = Vec::new();
    let mut i: usize = 0;
    assert(views(patterns@).take(0) =~= seq![]);
    assert(views(usable@) =~= seq![]);
    while i < patterns.len()
        invariant
            i <= patterns@.len(),
            views(usable@) == valid(views(patterns@).take(i as int)),
        decreases patterns.len() - i,
    {
        let ghost next = views(patterns@).take(i + 1);
        assert(next.drop_last() =~= views(patterns@).take(i as int));
        assert(next.last() == patterns@[i as int]@);
        if Expression::compile(&patterns[i]).is_ok() {
            usable.push(patterns[i].clone());
        }
        i += 1;
    }
    assert(views(patterns@).take(patterns@.len() as int) =~= views(patterns@));
    match ExpressionSet::compile(&usable) {
        Ok(set) => Some(set),
        Err(_) => None,
    }
}

/// Whether any filter's `match_command` matches this command. Cheap pre-check
/// before doing the full registry lookup.
pub fn command_matches_filter(set: &Option<ExpressionSet>, command: &str) -> (r: bool)
    ensures
        r == match set {
            Some(set) => any_matches(set@, command@),
            None => false,
        },
{
    match set {
        Some(set) => set.is_match(command),
        None => false,
    }
}

proof fn matching_from_finds(filters: Seq<CompiledFilter>, command: Seq<char>, from: int)
    requires
        0 <= from,
    ensures
        match matching_from(filters, command, from) {
            Some(i) => from <= i < filters.len() && regex_matches(
                filters[i]@.match_command,
                command,
            ),
            None => forall|i: int|
                from <= i < filters.len() ==> !regex_matches(
                    (#[trigger] filters[i])@.match_command,
                    command,
                ),
        },
    decreases filters.len() - from,
{
    if from < filters.len() && !regex_matches(filters[from]@.match_command, command) {
        matching_from_finds(filters, command, from + 1);
    }
}

/// The pre-check agrees with the lookup: where every filter of a file compiles,
/// and their expressions compile together, a command passes the one exactly
/// where the other finds a filter.
pub proof fn the_match_set_agrees_with_the_lookup(
    file: TomlFilterFile,
    compiled: Seq<CompiledFilter>,
    command: Seq<char>,
)
    requires
        file.schema_version == SCHEMA_VERSION,
        regex_set_error(command_patterns(file)) is None,
        compiled.len() == file.filters@.len(),
        forall|i: int|
            0 <= i < compiled.len() ==> (#[trigger] compiled[i])@ == file.filters@[i].1@,
    ensures
        any_matches(match_set(command_patterns(file)), command) <==> first_matching(
            compiled,
            command,
        ) is Some,
{
    let sources = command_patterns(file);
    matching_from_finds(compiled, command, 0);
    if first_matching(compiled, command) is Some {
        let i = first_matching(compiled, command)->0;
        assert(compiled[i]@ == file.filters@[i].1@);
        assert(regex_matches(sources[i], command));
    }
    if any_matches(sources, command) {
        let i = choose|i: int| 0 <= i < sources.len() && regex_matches(#[trigger] sources[i], command);
        assert(compiled[i]@ == file.filters@[i].1@);
    }
}

// ---------------------------------------------------------------------------
// The pipeline
// ---------------------------------------------------------------------------

/// `line` after the substitutions, each working on what the one before it left.
pub open spec fn substituted(line: Seq<char>, rules: Seq<Substitution>) -> Seq<char>
    decreases rules.len(),
{
    if rules.len() == 0 {
        line
    } else {
        regex_replaced(
            rules.last().pattern,
            substituted(line, rules.drop_last()),
            rules.last().replacement,
        )
    }
}

/// One line after the first two stages.
pub open spec fn prepared_line(rules: FilterRules, line: Seq<char>) -> Seq<char> {
    substituted(
        if rules.strip_ansi {
            plain(line)
        } else {
            line
        },
        rules.replace,
    )
}

/// The lines after the first two stages.
pub open spec fn prepared(rules: FilterRules, stdout: Seq<char>) -> Seq<Seq<char>> {
    lines(stdout).map_values(|line: Seq<char>| prepared_line(rules, line))
}

/// Whether a short-circuit rule fires on the blob.
pub open spec fn fires(rule: ShortCircuit, blob: Seq<char>) -> bool {
    &&& regex_matches(rule.pattern, blob)
    &&& rule.unless matches Some(unless) ==> !regex_matches(unless, blob)
}

/// The message of the first rule at or after `from` that fires.
pub open spec fn verdict_from(rules: Seq<ShortCircuit>, blob: Seq<char>, from: int) -> Option<
    Seq<char>,
>
    decreases rules.len() - from,
{
    if from < 0 || from >= rules.len() {
        None
    } else if fires(rules[from], blob) {
        Some(rules[from].message)
    } else {
        verdict_from(rules, blob, from + 1)
    }
}

/// The message of the first rule that fires on the prepared lines.
pub open spec fn verdict(rules: FilterRules, prepared: Seq<Seq<char>>) -> Option<Seq<char>> {
    verdict_from(rules.match_output, join(prepared, "\n"@), 0)
}

/// Whether a line passes the selection.
pub open spec fn passes(selection: Selection, line: Seq<char>) -> bool {
    match selection {
        Selection::All => true,
        Selection::Strip(sources) => !any_matches(sources, line),
        Selection::Keep(sources) => any_matches(sources, line),
    }
}

/// The lines that pass the selection, in order.
pub open spec fn selected(selection: Selection, all: Seq<Seq<char>>) -> Seq<Seq<char>>
    decreases all.len(),
{
    if all.len() == 0 {
        seq![]
    } else if passes(selection, all.last()) {
        selected(selection, all.drop_last()).push(all.last())
    } else {
        selected(selection, all.drop_last())
    }
}

/// Each line cut to the declared length.
pub open spec fn shortened(at: Option<nat>, all: Seq<Seq<char>>) -> Seq<Seq<char>> {
    match at {
        Some(n) => all.map_values(|line: Seq<char>| truncated(line, n)),
        None => all,
    }
}

/// The line that stands for `n` omitted ones.
pub open spec fn omitted(n: nat) -> Seq<char> {
    "... ("@ + decimal(n) + " lines omitted)"@
}

/// The line that stands for `n` truncated ones.
pub open spec fn cut_off(n: nat) -> Seq<char> {
    "... ("@ + decimal(n) + " lines truncated)"@
}

/// The first and last lines as declared, with a line for what was left out.
pub open spec fn ends(head: Option<nat>, tail: Option<nat>, all: Seq<Seq<char>>) -> Seq<Seq<char>> {
    match (head, tail) {
        (Some(h), Some(t)) => if all.len() > h + t {
            all.take(h as int) + seq![omitted((all.len() - h - t) as nat)] + all.skip(
                all.len() - t,
            )
        } else {
            all
        },
        (Some(h), None) => if all.len() > h {
            all.take(h as int).push(omitted((all.len() - h) as nat))
        } else {
            all
        },
        (None, Some(t)) => if all.len() > t {
            seq![omitted((all.len() - t) as nat)] + all.skip(all.len() - t)
        } else {
            all
        },
        (None, None) => all,
    }
}

/// At most `max` lines, and one more for what was cut off.
pub open spec fn capped(max: Option<nat>, all: Seq<Seq<char>>) -> Seq<Seq<char>> {
    match max {
        Some(m) => if all.len() > m {
            all.take(m as int).push(cut_off((all.len() - m) as nat))
        } else {
            all
        },
        None => all,
    }
}

/// The lines before anything is cut: selected, then shortened.
pub open spec fn candidates(rules: FilterRules, stdout: Seq<char>) -> Seq<Seq<char>> {
    shortened(rules.truncate_at, selected(rules.selection, prepared(rules, stdout)))
}

/// The lines after every stage.
pub open spec fn remaining(rules: FilterRules, stdout: Seq<char>) -> Seq<Seq<char>> {
    capped(rules.max, ends(rules.head, rules.tail, candidates(rules, stdout)))
}

/// The text that the pipeline leaves.
pub open spec fn filtered_text(rules: FilterRules, stdout: Seq<char>) -> Seq<char> {
    match verdict(rules, prepared(rules, stdout)) {
        Some(message) => message,
        None => {
            let result = join(remaining(rules, stdout), "\n"@);
            if trimmed(result).len() == 0 && rules.on_empty is Some {
                rules.on_empty->0
            } else {
                result
            }
        },
    }
}

/// Describes how much of the raw output a filter dropped, so a recovery hint
/// (tee) can tell the reader how to get the rest back.
#[derive(Debug, PartialEq)]
pub enum Lossiness {
    /// Nothing was dropped.
    Lossless,
    /// `tail -n +{tail_offset}` over `tee_payload` reproduces the dropped lines.
    Tail { tee_payload: String, tail_offset: usize },
    /// What was dropped cannot be recovered from a tail.
    Whole,
}

/// What a [`Lossiness`] says.
#[verifier::ext_equal]
pub enum Loss {
    Lossless,
    Tail { payload: Seq<char>, offset: nat },
    Whole,
}

impl View for Lossiness {
    type V = Loss;

    open spec fn view(&self) -> Loss {
        match *self {
            Lossiness::Lossless => Loss::Lossless,
            Lossiness::Tail { tee_payload, tail_offset } => Loss::Tail {
                payload: tee_payload@,
                offset: tail_offset as nat,
            },
            Lossiness::Whole => Loss::Whole,
        }
    }
}

/// Whether lines were dropped from the head or the middle.
pub open spec fn drops_before_end(rules: FilterRules, all: Seq<Seq<char>>) -> bool {
    rules.tail matches Some(t) && all.len() > t + (match rules.head {
        Some(h) => h,
        None => 0,
    })
}

/// Where a head cut falls, if there is one.
pub open spec fn head_cut(rules: FilterRules, all: Seq<Seq<char>>) -> Option<nat> {
    if rules.tail is None && rules.head is Some && all.len() > rules.head->0 {
        rules.head
    } else {
        None
    }
}

/// Where the absolute cap falls, if it cuts anything.
pub open spec fn max_cut(rules: FilterRules, all: Seq<Seq<char>>) -> Option<nat> {
    if rules.max is Some && ends(rules.head, rules.tail, all).len() > rules.max->0 {
        rules.max
    } else {
        None
    }
}

/// How much of the output the pipeline dropped.
pub open spec fn loss(rules: FilterRules, stdout: Seq<char>) -> Loss {
    let whole = selected(rules.selection, prepared(rules, stdout));
    let all = candidates(rules, stdout);
    if verdict(rules, prepared(rules, stdout)) is Some {
        Loss::Whole
    } else if trimmed(join(remaining(rules, stdout), "\n"@)).len() == 0 && rules.on_empty is Some {
        Loss::Lossless
    } else if all != whole || drops_before_end(rules, all) {
        Loss::Whole
    } else {
        match (head_cut(rules, all), max_cut(rules, all)) {
            (None, None) => Loss::Lossless,
            (Some(head), None) => Loss::Tail { payload: join(all, "\n"@), offset: head + 1 },
            (None, Some(max)) => if rules.tail is None {
                Loss::Tail { payload: join(all, "\n"@), offset: max + 1 }
            } else {
                Loss::Whole
            },
            (Some(_), Some(_)) => Loss::Whole,
        }
    }
}

/// The line after a filter's substitutions.
fn substitute(rules: &Vec<CompiledReplaceRule>, line: String) -> (out: String)
    ensures
        out@ == substituted(line@, Seq::new(rules@.len(), |i: int| rules@[i]@)),
{
    let ghost all = Seq::new(rules@.len(), |i: int| rules@[i]@);
    let mut out = line;
    let mut i: usize = 0;
    assert(all.take(0) =~= seq![]);
    while i < rules.len()
        invariant
            i <= rules@.len(),
            all == Seq::new(rules@.len(), |i: int| rules@[i]@),
            out@ == substituted(line@, all.take(i as int)),
        decreases rules.len() - i,
    {
        let ghost next = all.take(i + 1);
        assert(next.drop_last() =~= all.take(i as int));
        assert(next.last() == rules@[i as int]@);
        out = rules[i].pattern.replace_all(&out, &rules[i].replacement);
        i += 1;
    }
    assert(all.take(all.len() as int) =~= all);
    out
}

/// The lines after the first two stages.
fn prepare(filter: &CompiledFilter, stdout: &str) -> (out: Vec<String>)
    ensures
        views(out@) == prepared(filter@, stdout@),
{
    let all = lines_of(stdout);
    let ansi = ansi_pattern();
    let mut out: Vec<String> = Vec::new();
    let mut i: usize = 0;
    while i < all.len()
        invariant
            i <= all@.len(),
            views(all@) == lines(stdout@),
            match ansi {
                Some(p) => p@ == crate::output_filter::ANSI_CODE@ && regex_error(
                    crate::output_filter::ANSI_CODE@,
                ) is None,
                None => regex_error(crate::output_filter::ANSI_CODE@) is Some,
            },
            out@.len() == i,
            forall|j: int| 0 <= j < i ==> out@[j]@ == prepared_line(filter@, #[trigger] all@[j]@),
        decreases all.len() - i,
    {
        let line = if filter.strip_ansi {
            strip_with(&ansi, &all[i])
        } else {
            all[i].clone()
        };
        let done = substitute(&filter.replace, line);
        out.push(done);
        i += 1;
    }
    assert(views(out@) =~= prepared(filter@, stdout@)) by {
        assert forall|j: int| 0 <= j < out@.len() implies views(out@)[j] == prepared(
            filter@,
            stdout@,
        )[j] by {
            assert(views(all@)[j] == all@[j]@);
        }
    }
    out
}

/// The message of the first short-circuit rule that fires on the blob.
fn judge(rules: &Vec<CompiledMatchOutputRule>, blob: &str) -> (r: Option<String>)
    ensures
        opt_view(r) == verdict_from(Seq::new(rules@.len(), |i: int| rules@[i]@), blob@, 0),
{
    let ghost all = Seq::new(rules@.len(), |i: int| rules@[i]@);
    let mut i: usize = 0;
    while i < rules.len()
        invariant
            i <= rules@.len(),
            all == Seq::new(rules@.len(), |i: int| rules@[i]@),
            verdict_from(all, blob@, 0) == verdict_from(all, blob@, i as int),
        decreases rules.len() - i,
    {
        let rule = &rules[i];
        assert(all[i as int] == rule@);
        if rule.pattern.is_match(blob) {
            let blocked = match &rule.unless {
                Some(unless) => unless.is_match(blob),
                None => false,
            };
            if !blocked {
                return Some(rule.message.clone());
            }
        }
        i += 1;
    }
    None
}

/// The lines that pass the selection.
fn select(filter: &LineFilter, all: Vec<String>) -> (out: Vec<String>)
    ensures
        views(out@) == selected(filter@, views(all@)),
{
    broadcast use views_push;

    let mut out: Vec<String> = Vec::new();
    let mut i: usize = 0;
    assert(views(all@).take(0) =~= seq![]);
    assert(views(out@) =~= seq![]);
    while i < all.len()
        invariant
            i <= all@.len(),
            views(out@) == selected(filter@, views(all@).take(i as int)),
        decreases all.len() - i,
    {
        let ghost next = views(all@).take(i + 1);
        assert(next.drop_last() =~= views(all@).take(i as int));
        assert(next.last() == all@[i as int]@);
        let keep = match filter {
            LineFilter::All => true,
            LineFilter::Strip(set) => !set.is_match(&all[i]),
            LineFilter::Keep(set) => set.is_match(&all[i]),
        };
        if keep {
            out.push(all[i].clone());
        }
        i += 1;
    }
    assert(views(all@).take(all@.len() as int) =~= views(all@));
    out
}

/// Each line cut to the declared length, and whether that changed any.
fn shorten(at: Option<usize>, all: Vec<String>) -> (r: (Vec<String>, bool))
    ensures
        views(r.0@) == shortened(opt_nat(at), views(all@)),
        r.1 == (views(r.0@) != views(all@)),
{
    match at {
        None => (all, false),
        Some(n) => {
            let mut out: Vec<String> = Vec::new();
            let mut changed = false;
            let mut i: usize = 0;
            while i < all.len()
                invariant
                    i <= all@.len(),
                    out@.len() == i,
                    forall|j: int|
                        0 <= j < i ==> out@[j]@ == truncated(#[trigger] all@[j]@, n as nat),
                    changed == exists|j: int| 0 <= j < i && out@[j]@ != #[trigger] all@[j]@,
                decreases all.len() - i,
            {
                let line = truncate(&all[i], n);
                if !same(&line, &all[i]) {
                    changed = true;
                }
                let ghost before = out@;
                out.push(line);
                assert(forall|j: int| 0 <= j < i ==> out@[j] == before[j]);
                i += 1;
                assert(changed ==> exists|j: int| 0 <= j < i && out@[j]@ != #[trigger] all@[j]@) by {
                    if changed {
                        if line@ != all@[i - 1]@ {
                            assert(out@[i - 1]@ != all@[i - 1]@);
                        } else {
                            let j = choose|j: int|
                                0 <= j < i - 1 && before[j]@ != #[trigger] all@[j]@;
                            assert(out@[j]@ != all@[j]@);
                        }
                    }
                }
                assert(!changed ==> forall|j: int|
                    0 <= j < i ==> out@[j]@ == #[trigger] all@[j]@) by {
                    if !changed {
                        assert forall|j: int| 0 <= j < i implies out@[j]@ == #[trigger] all@[j]@ by {
                            if j < i - 1 {
                                assert(out@[j] == before[j]);
                            }
                        }
                    }
                }
            }
            proof {
                let short = shortened(Some(n as nat), views(all@));
                assert forall|j: int| 0 <= j < out@.len() implies views(out@)[j] == short[j] by {
                    assert(views(all@)[j] == all@[j]@);
                }
                assert(views(out@) =~= short);
                if changed {
                    let j = choose|j: int| 0 <= j < all@.len() && out@[j]@ != #[trigger] all@[j]@;
                    assert(views(out@)[j] != views(all@)[j]);
                } else {
                    assert(views(out@) =~= views(all@));
                }
            }
            (out, changed)
        },
    }
}

/// `n` between the two halves of a marker line.
fn marker(n: usize, after: &str) -> (out: String)
    ensures
        out@ == "... ("@ + decimal(n as nat) + after@,
{
    let mut out = "... (".to_string();
    let digits = count(n);
    out.push_str(&digits);
    out.push_str(after);
    out
}

/// The lines `all[from..to]`, copied.
fn slice_of(all: &Vec<String>, from: usize, to: usize) -> (out: Vec<String>)
    requires
        from <= to <= all@.len(),
    ensures
        views(out@) == views(all@).subrange(from as int, to as int),
{
    let mut out: Vec<String> = Vec::new();
    let mut i: usize = from;
    while i < to
        invariant
            from <= i <= to <= all@.len(),
            out@.len() == i - from,
            forall|j: int| 0 <= j < out@.len() ==> out@[j]@ == (#[trigger] all@[from + j])@,
        decreases to - i,
    {
        out.push(all[i].clone());
        i += 1;
    }
    assert(views(out@) =~= views(all@).subrange(from as int, to as int)) by {
        assert forall|j: int| 0 <= j < out@.len() implies views(out@)[j] == views(all@).subrange(
            from as int,
            to as int,
        )[j] by {
            assert(all@[from + j]@ == views(all@)[from + j]);
        }
    }
    out
}

/// The first and last lines as declared.
fn cut_ends(head: Option<usize>, tail: Option<usize>, all: &Vec<String>) -> (out: Vec<String>)
    ensures
        views(out@) == ends(opt_nat(head), opt_nat(tail), views(all@)),
{
    broadcast use views_push;

    let total: usize = all.len();
    match (head, tail) {
        (Some(h), Some(t)) => {
            if total > h && total - h > t {
                let mut out = slice_of(all, 0, h);
                out.push(marker(total - h - t, " lines omitted)"));
                let mut last = slice_of(all, total - t, total);
                let ghost a = out@;
                let ghost b = last@;
                out.append(&mut last);
                assert(views(a + b) =~= views(a) + views(b));
                assert(views(out@) =~= ends(opt_nat(head), opt_nat(tail), views(all@)));
                return out;
            }
        },
        (Some(h), None) => {
            if total > h {
                let mut out = slice_of(all, 0, h);
                out.push(marker(total - h, " lines omitted)"));
                return out;
            }
        },
        (None, Some(t)) => {
            if total > t {
                let mut out: Vec<String> = Vec::new();
                out.push(marker(total - t, " lines omitted)"));
                let mut last = slice_of(all, total - t, total);
                let ghost a = out@;
                let ghost b = last@;
                out.append(&mut last);
                assert(views(a + b) =~= views(a) + views(b));
                assert(views(out@) =~= ends(opt_nat(head), opt_nat(tail), views(all@)));
                return out;
            }
        },
        (None, None) => {},
    }
    copy_strings(all)
}

/// At most `max` lines, and one more for what was cut off.
fn cap(max: Option<usize>, all: Vec<String>) -> (out: Vec<String>)
    ensures
        views(out@) == capped(opt_nat(max), views(all@)),
{
    broadcast use views_push;

    match max {
        Some(m) => {
            if all.len() > m {
                let mut out = slice_of(&all, 0, m);
                out.push(marker(all.len() - m, " lines truncated)"));
                out
            } else {
                all
            }
        },
        None => all,
    }
}

/// Apply a compiled filter pipeline to raw stdout.
pub fn apply_filter(filter: &CompiledFilter, stdout: &str) -> (out: String)
    ensures
        out@ == filtered_text(filter@, stdout@),
{
    apply_filter_with_info(filter, stdout).0
}

/// Apply a compiled filter pipeline to raw stdout, and say how much it dropped.
pub fn apply_filter_with_info(filter: &CompiledFilter, stdout: &str) -> (r: (String, Lossiness))
    ensures
        r.0@ == filtered_text(filter@, stdout@),
        r.1@ == loss(filter@, stdout@),
{
    let ready = prepare(filter, stdout);
    let blob = join_with(&ready, "\n");
    if let Some(message) = judge(&filter.match_output, &blob) {
        return (message, Lossiness::Whole);
    }
    let whole = select(&filter.line_filter, ready);
    let (all, intra_line_loss) = shorten(filter.truncate_lines_at, whole);
    let ended = cut_ends(filter.head_lines, filter.tail_lines, &all);
    let before_cap: usize = ended.len();
    let rest = cap(filter.max_lines, ended);
    let result = join_with(&rest, "\n");
    if is_blank(&result) {
        if let Some(message) = &filter.on_empty {
            return (message.clone(), Lossiness::Lossless);
        }
    }
    let total: usize = all.len();
    let noncontiguous_drop = match (filter.head_lines, filter.tail_lines) {
        (Some(h), Some(t)) => total > h && total - h > t,
        (None, Some(t)) => total > t,
        _ => false,
    };
    let head_at: Option<usize> = match (filter.head_lines, filter.tail_lines) {
        (Some(h), None) => if total > h {
            Some(h)
        } else {
            None
        },
        _ => None,
    };
    let max_at: Option<usize> = match filter.max_lines {
        Some(m) => if before_cap > m {
            Some(m)
        } else {
            None
        },
        None => None,
    };
    let dropped = if intra_line_loss || noncontiguous_drop {
        Lossiness::Whole
    } else {
        match (head_at, max_at) {
            (None, None) => Lossiness::Lossless,
            (Some(h), None) => Lossiness::Tail {
                tee_payload: join_with(&all, "\n"),
                tail_offset: h + 1,
            },
            (None, Some(m)) => if filter.tail_lines.is_none() {
                Lossiness::Tail { tee_payload: join_with(&all, "\n"), tail_offset: m + 1 }
            } else {
                Lossiness::Whole
            },
            (Some(_), Some(_)) => Lossiness::Whole,
        }
    };
    (result, dropped)
}

/// A filter that reports a tail loses nothing that the tail does not give back:
/// the lines shown, without the marker at their end, followed by the lines
/// `tail -n +{offset}` prints of the payload, are all the lines there were to show.
///
/// The lines must be ones that a text can fall into; a substitution can leave
/// others, such as a line that holds a line feed.
pub proof fn tail_recovers_what_was_dropped(rules: FilterRules, stdout: Seq<char>)
    requires
        loss(rules, stdout) is Tail,
        proper_lines(candidates(rules, stdout)),
    ensures
        ({
            let offset = loss(rules, stdout)->offset;
            let printed = lines(loss(rules, stdout)->payload).skip(offset - 1);
            &&& 0 < offset <= candidates(rules, stdout).len()
            &&& printed.len() > 0
            &&& remaining(rules, stdout).drop_last() + printed == candidates(rules, stdout)
        }),
{
    let all = candidates(rules, stdout);
    lines_of_joined(all);
    let offset = loss(rules, stdout)->offset;
    assert(remaining(rules, stdout).drop_last() =~= all.take(offset - 1));
    assert(all.take(offset - 1) + all.skip(offset - 1) =~= all);
}

/// Where nothing was dropped, no declared line is missing: the text shown is
/// all the selected lines, unless the declared message stands for an empty one.
pub proof fn lossless_shows_everything(rules: FilterRules, stdout: Seq<char>)
    requires
        loss(rules, stdout) is Lossless,
    ensures
        ({
            let all = join(selected(rules.selection, prepared(rules, stdout)), "\n"@);
            ||| filtered_text(rules, stdout) == all
            ||| rules.on_empty == Some(filtered_text(rules, stdout))
        }),
{
}

// ---------------------------------------------------------------------------
// What holds of the stages
// ---------------------------------------------------------------------------

/// The filter found for a command is the first whose expression matches it.
pub proof fn the_first_match_is_found(filters: Seq<CompiledFilter>, command: Seq<char>, k: int)
    requires
        0 <= k < filters.len(),
        regex_matches(filters[k]@.match_command, command),
        forall|i: int|
            0 <= i < k ==> !regex_matches((#[trigger] filters[i])@.match_command, command),
    ensures
        first_matching(filters, command) == Some(k),
{
    first_match_from(filters, command, 0, k);
}

proof fn first_match_from(filters: Seq<CompiledFilter>, command: Seq<char>, from: int, k: int)
    requires
        0 <= from <= k < filters.len(),
        regex_matches(filters[k]@.match_command, command),
        forall|i: int|
            0 <= i < k ==> !regex_matches((#[trigger] filters[i])@.match_command, command),
    ensures
        matching_from(filters, command, from) == Some(k),
    decreases k - from,
{
    if from < k {
        assert(!regex_matches(filters[from]@.match_command, command));
        first_match_from(filters, command, from + 1, k);
    }
}

/// A file's filters fall into those that compile and those that do not, each in the
/// file's order, and none into both.
pub proof fn every_filter_compiles_or_is_warned_of(
    filters: Seq<(String, TomlFilterDef)>,
    n: int,
)
    requires
        0 <= n <= filters.len(),
    ensures
        sound(filters, n) == Seq::new(n as nat, |i: int| i).filter(
            |i: int| defect(filters[i].1) is None,
        ),
        unsound(filters, n) == Seq::new(n as nat, |i: int| i).filter(
            |i: int| defect(filters[i].1) is Some,
        ),
        sound(filters, n).len() + unsound(filters, n).len() == n,
    decreases n,
{
    let all = Seq::new(n as nat, |i: int| i);
    kept_one_more(all, |i: int| defect(filters[i].1) is None);
    kept_one_more(all, |i: int| defect(filters[i].1) is Some);
    if n > 0 {
        every_filter_compiles_or_is_warned_of(filters, n - 1);
        assert(all.drop_last() =~= Seq::new((n - 1) as nat, |i: int| i));
    }
}

/// The expressions kept for the pre-check are those that compile, in order.
pub proof fn the_valid_expressions_are_kept(sources: Seq<Seq<char>>)
    ensures
        valid(sources) == sources.filter(|source: Seq<char>| regex_error(source) is None),
    decreases sources.len(),
{
    kept_one_more(sources, |source: Seq<char>| regex_error(source) is None);
    if sources.len() > 0 {
        the_valid_expressions_are_kept(sources.drop_last());
    }
}

/// A filter compiles only where each of its expressions does.
pub proof fn a_filter_compiles_where_each_expression_does(def: TomlFilterDef)
    ensures
        defect(def) is None <==> {
            &&& !(def.strip_lines_matching@.len() > 0 && def.keep_lines_matching@.len() > 0)
            &&& regex_error(def.match_command@) is None
            &&& forall|i: int|
                0 <= i < def.replace@.len() ==> regex_error(
                    (#[trigger] def.replace@[i]).pattern@,
                ) is None
            &&& forall|i: int|
                0 <= i < def.match_output@.len() ==> regex_error(
                    (#[trigger] def.match_output@[i]).pattern@,
                ) is None && (def.match_output@[i].unless matches Some(u) ==> regex_error(
                    u@,
                ) is None)
            &&& def.strip_lines_matching@.len() > 0 ==> regex_set_error(
                views(def.strip_lines_matching@),
            ) is None
            &&& def.strip_lines_matching@.len() == 0 && def.keep_lines_matching@.len() > 0
                ==> regex_set_error(views(def.keep_lines_matching@)) is None
        },
{
    let rules = def@;
    replacements_compile(rules.replace, 0);
    short_circuits_compile(rules.match_output, 0);
    if forall|i: int|
        0 <= i < def.replace@.len() ==> regex_error((#[trigger] def.replace@[i]).pattern@) is None {
        assert forall|i: int| 0 <= i < rules.replace.len() implies regex_error(
            (#[trigger] rules.replace[i]).pattern,
        ) is None by {
            assert(regex_error(def.replace@[i].pattern@) is None);
        }
    }
    if replace_error(rules.replace, 0) is None {
        assert forall|i: int| 0 <= i < def.replace@.len() implies regex_error(
            (#[trigger] def.replace@[i]).pattern@,
        ) is None by {
            assert(regex_error(rules.replace[i].pattern) is None);
        }
    }
    if forall|i: int|
        0 <= i < def.match_output@.len() ==> regex_error(
            (#[trigger] def.match_output@[i]).pattern@,
        ) is None && (def.match_output@[i].unless matches Some(u) ==> regex_error(u@) is None) {
        assert forall|i: int| 0 <= i < rules.match_output.len() implies rule_error(
            #[trigger] rules.match_output[i],
        ) is None by {
            assert(regex_error(def.match_output@[i].pattern@) is None);
        }
    }
    if match_output_error(rules.match_output, 0) is None {
        assert forall|i: int| 0 <= i < def.match_output@.len() implies regex_error(
            (#[trigger] def.match_output@[i]).pattern@,
        ) is None && (def.match_output@[i].unless matches Some(u) ==> regex_error(
            u@,
        ) is None) by {
            assert(rule_error(rules.match_output[i]) is None);
        }
    }
}

proof fn replacements_compile(rules: Seq<Substitution>, from: int)
    requires
        0 <= from,
    ensures
        replace_error(rules, from) is None <==> forall|i: int|
            from <= i < rules.len() ==> regex_error((#[trigger] rules[i]).pattern) is None,
    decreases rules.len() - from,
{
    if from < rules.len() {
        replacements_compile(rules, from + 1);
        if regex_error(rules[from].pattern) is Some {
            assert(regex_error(rules[from].pattern) is Some);
        }
    }
}

proof fn short_circuits_compile(rules: Seq<ShortCircuit>, from: int)
    requires
        0 <= from,
    ensures
        match_output_error(rules, from) is None <==> forall|i: int|
            from <= i < rules.len() ==> rule_error(#[trigger] rules[i]) is None,
    decreases rules.len() - from,
{
    if from < rules.len() {
        short_circuits_compile(rules, from + 1);
    }
}

/// Each substitution works on what the one before it left, the first on the line.
pub proof fn substitutions_work_in_turn(line: Seq<char>, rules: Seq<Substitution>)
    ensures
        substituted(line, rules) == rules.fold_left(
            line,
            |left: Seq<char>, r: Substitution| regex_replaced(r.pattern, left, r.replacement),
        ),
    decreases rules.len(),
{
    if rules.len() > 0 {
        substitutions_work_in_turn(line, rules.drop_last());
    }
}

/// The message of the first rule that fires stands for the whole output, whatever the
/// later stages would have left.
pub proof fn the_first_rule_that_fires_answers(
    rules: FilterRules,
    stdout: Seq<char>,
    blob: Seq<char>,
    k: int,
)
    requires
        blob == join(prepared(rules, stdout), "\n"@),
        0 <= k < rules.match_output.len(),
        regex_matches(rules.match_output[k].pattern, blob),
        rules.match_output[k].unless matches Some(u) ==> !regex_matches(u, blob),
        forall|i: int|
            0 <= i < k ==> !regex_matches((#[trigger] rules.match_output[i]).pattern, blob) || (
            rules.match_output[i].unless matches Some(u) && regex_matches(u, blob)),
    ensures
        filtered_text(rules, stdout) == rules.match_output[k].message,
        loss(rules, stdout) is Whole,
{
    verdict_is(rules.match_output, blob, 0, k);
}

proof fn verdict_is(rules: Seq<ShortCircuit>, blob: Seq<char>, from: int, k: int)
    requires
        0 <= from <= k < rules.len(),
        fires(rules[k], blob),
        forall|i: int| 0 <= i < k ==> !fires(#[trigger] rules[i], blob),
    ensures
        verdict_from(rules, blob, from) == Some(rules[k].message),
    decreases k - from,
{
    if from < k {
        assert(!fires(rules[from], blob));
        verdict_is(rules, blob, from + 1, k);
    }
}

proof fn no_verdict(rules: Seq<ShortCircuit>, blob: Seq<char>, from: int)
    requires
        0 <= from,
        forall|i: int| 0 <= i < rules.len() ==> !fires(#[trigger] rules[i], blob),
    ensures
        verdict_from(rules, blob, from) is None,
    decreases rules.len() - from,
{
    if from < rules.len() {
        assert(!fires(rules[from], blob));
        no_verdict(rules, blob, from + 1);
    }
}

/// The lines that pass are, in order, those that no expression matches where lines are
/// stripped, and those that one matches where lines are kept; so with the same
/// expressions a line passes the one or the other, never both.
pub proof fn the_selection_keeps_the_order(sources: Seq<Seq<char>>, all: Seq<Seq<char>>)
    ensures
        selected(Selection::All, all) == all,
        selected(Selection::Strip(sources), all) == all.filter(
            |line: Seq<char>| !any_matches(sources, line),
        ),
        selected(Selection::Keep(sources), all) == all.filter(
            |line: Seq<char>| any_matches(sources, line),
        ),
        selected(Selection::Strip(sources), all).len() + selected(
            Selection::Keep(sources),
            all,
        ).len() == all.len(),
    decreases all.len(),
{
    kept_one_more(all, |line: Seq<char>| !any_matches(sources, line));
    kept_one_more(all, |line: Seq<char>| any_matches(sources, line));
    if all.len() > 0 {
        the_selection_keeps_the_order(sources, all.drop_last());
        assert(all.drop_last().push(all.last()) =~= all);
    }
    assert(selected(Selection::All, all) =~= all);
}

/// Where the head and the tail do not reach each other, they are shown with one line
/// between them that tells how many were left out: as many as all there were less
/// those shown. Where they do, everything is shown.
pub proof fn the_ends_are_shown(h: nat, t: nat, all: Seq<Seq<char>>)
    ensures
        all.len() <= h + t ==> ends(Some(h), Some(t), all) == all,
        all.len() > h + t ==> {
            let shown = ends(Some(h), Some(t), all);
            &&& shown.len() == h + 1 + t
            &&& shown.take(h as int) == all.take(h as int)
            &&& shown[h as int] == "... ("@ + decimal((all.len() - h - t) as nat)
                + " lines omitted)"@
            &&& shown.skip(h + 1int) == all.skip(all.len() - t)
        },
        all.len() <= h ==> ends(Some(h), None, all) == all,
        all.len() > h ==> {
            let shown = ends(Some(h), None, all);
            &&& shown.len() == h + 1
            &&& shown.take(h as int) == all.take(h as int)
            &&& shown.last() == "... ("@ + decimal((all.len() - h) as nat) + " lines omitted)"@
        },
        all.len() <= t ==> ends(None, Some(t), all) == all,
        all.len() > t ==> {
            let shown = ends(None, Some(t), all);
            &&& shown.len() == t + 1
            &&& shown[0] == "... ("@ + decimal((all.len() - t) as nat) + " lines omitted)"@
            &&& shown.skip(1) == all.skip(all.len() - t)
        },
        ends(None, None, all) == all,
{
    if all.len() > h + t {
        let shown = ends(Some(h), Some(t), all);
        assert(shown.take(h as int) =~= all.take(h as int));
        assert(shown.skip(h + 1int) =~= all.skip(all.len() - t));
    }
    if all.len() > h {
        assert(ends(Some(h), None, all).take(h as int) =~= all.take(h as int));
    }
    if all.len() > t {
        assert(ends(None, Some(t), all).skip(1) =~= all.skip(all.len() - t));
    }
}

/// No more lines than the cap are shown, but for the one that tells how many were cut
/// off: as many as all there were less those shown.
pub proof fn the_cap_holds(m: nat, all: Seq<Seq<char>>)
    ensures
        capped(None, all) == all,
        all.len() <= m ==> capped(Some(m), all) == all,
        all.len() > m ==> {
            let shown = capped(Some(m), all);
            &&& shown.len() == m + 1
            &&& shown.take(m as int) == all.take(m as int)
            &&& shown.last() == "... ("@ + decimal((all.len() - m) as nat) + " lines truncated)"@
        },
{
    if all.len() > m {
        assert(capped(Some(m), all).take(m as int) =~= all.take(m as int));
    }
}

/// A filter that declares no stage leaves the lines of the output as they are.
pub proof fn no_stage_changes_nothing(rules: FilterRules, stdout: Seq<char>)
    requires
        !rules.strip_ansi,
        rules.replace.len() == 0,
        rules.match_output.len() == 0,
        rules.selection == Selection::All,
        rules.truncate_at is None,
        rules.head is None,
        rules.tail is None,
        rules.max is None,
        rules.on_empty is None,
    ensures
        filtered_text(rules, stdout) == join(lines(stdout), "\n"@),
        loss(rules, stdout) is Lossless,
{
    let all = lines(stdout);
    assert(prepared(rules, stdout) =~= all);
    the_selection_keeps_the_order(seq![], all);
}

/// The stages work in order: what the selection lets pass of the prepared lines is
/// shortened line by line, then its ends are taken, then it is capped; the declared
/// message stands for what is left where that is blank.
pub proof fn the_stages_work_in_order(
    rules: FilterRules,
    stdout: Seq<char>,
    kept: Seq<Seq<char>>,
    cut: Seq<Seq<char>>,
)
    requires
        rules.match_output.len() == 0,
        kept == lines(stdout).map_values(|line: Seq<char>| prepared_line(rules, line)).filter(
            |line: Seq<char>| passes(rules.selection, line),
        ),
        cut.len() == kept.len(),
        forall|i: int|
            0 <= i < cut.len() ==> #[trigger] cut[i] == (match rules.truncate_at {
                Some(n) => truncated(kept[i], n),
                None => kept[i],
            }),
    ensures
        ({
            let left = join(capped(rules.max, ends(rules.head, rules.tail, cut)), "\n"@);
            &&& rules.on_empty is None || trimmed(left).len() > 0 ==> filtered_text(rules, stdout)
                == left
            &&& rules.on_empty is Some && trimmed(left).len() == 0 ==> filtered_text(rules, stdout)
                == rules.on_empty->0
        }),
{
    passing(rules.selection, prepared(rules, stdout));
    assert(shortened(rules.truncate_at, kept) =~= cut);
}

proof fn passing(selection: Selection, all: Seq<Seq<char>>)
    ensures
        selected(selection, all) == all.filter(|line: Seq<char>| passes(selection, line)),
    decreases all.len(),
{
    kept_one_more(all, |line: Seq<char>| passes(selection, line));
    if all.len() > 0 {
        passing(selection, all.drop_last());
    }
}

} // verus!
