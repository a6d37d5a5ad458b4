//! The tools a session offers.
use vstd::prelude::*;
use crate::browser::BrowserTool;
use crate::file_edit::FileEditTool;
use crate::file_read::FileReadTool;
use crate::glob_tool::GlobTool;
use crate::goal_tool::GoalTool;
use crate::grep_tool::GrepTool;
use crate::hub::HubTool;
use crate::image_tools::generate::GenerateImageTool;
use crate::image_tools::inspect::InspectImageTool;
use crate::lsp_tool::LspTool;
use crate::monitor_tool::MonitorTool;
use crate::powershell::PowerShellTool;
use crate::text::{same, views, views_push};
use crate::PermissionLevel;

verus! {

/// Runs shell commands.
pub struct PtyBashTool;

impl PtyBashTool {
    pub fn name(&self) -> (out: &'static str)
        ensures
            out@ == "Bash"@,
    {
        "Bash"
    }

    pub fn permission_level(&self) -> (out: PermissionLevel)
        ensures
            out == PermissionLevel::Execute,
    {
        PermissionLevel::Execute
    }
}

/// Writes files.
pub struct FileWriteTool;

impl FileWriteTool {
    pub fn name(&self) -> (out: &'static str)
        ensures
            out@ == "Write"@,
    {
        "Write"
    }

    pub fn permission_level(&self) -> (out: PermissionLevel)
        ensures
            out == PermissionLevel::Write,
    {
        PermissionLevel::Write
    }
}

/// A tool by name, with the permission it needs.
#[derive(Debug)]
pub struct ToolEntry {
    pub name: String,
    pub level: PermissionLevel,
}

/// What a [`ToolEntry`] says.
#[verifier::ext_equal]
pub struct EntryView {
    pub name: Seq<char>,
    pub level: PermissionLevel,
}

impl View for ToolEntry {
    type V = EntryView;

    open spec fn view(&self) -> EntryView {
        EntryView { name: self.name@, level: self.level }
    }
}

/// What some entries say.
pub open spec fn entry_views(v: Seq<ToolEntry>) -> Seq<EntryView> {
    Seq::new(v.len(), |i: int| v[i]@)
}

fn entry(name: &str, level: PermissionLevel) -> (e: ToolEntry)
    ensures
        e@ == (EntryView { name: name@, level }),
{
    ToolEntry { name: name.to_string(), level }
}

/// The entry of a tool.
pub open spec fn entry_of(name: Seq<char>, level: PermissionLevel) -> EntryView {
    EntryView { name, level }
}

/// The tools that a session adds to those defined here, by where they stand in its
/// list.
#[derive(Debug)]
pub struct OtherTools {
    /// After the tools on one file.
    pub editing: Vec<ToolEntry>,
    /// After the searches.
    pub working: Vec<ToolEntry>,
    /// After the language servers.
    pub teaming: Vec<ToolEntry>,
    /// After the hub: the desktop.
    pub desktop: Vec<ToolEntry>,
}

/// What some [`OtherTools`] say.
#[verifier::ext_equal]
pub struct OthersView {
    pub editing: Seq<EntryView>,
    pub working: Seq<EntryView>,
    pub teaming: Seq<EntryView>,
    pub desktop: Seq<EntryView>,
}

impl View for OtherTools {
    type V = OthersView;

    open spec fn view(&self) -> OthersView {
        OthersView {
            editing: entry_views(self.editing@),
            working: entry_views(self.working@),
            teaming: entry_views(self.teaming@),
            desktop: entry_views(self.desktop@),
        }
    }
}

impl OthersView {
    /// All of them.
    pub open spec fn all(self) -> Seq<EntryView> {
        self.editing + self.working + self.teaming + self.desktop
    }
}

/// The tools on one file and on a shell.
pub open spec fn file_tools() -> Seq<EntryView> {
    seq![
        entry_of("Bash"@, PermissionLevel::Execute),
        entry_of("Read"@, PermissionLevel::ReadOnly),
        entry_of("Edit"@, PermissionLevel::Write),
        entry_of("Write"@, PermissionLevel::Write),
    ]
}

/// The searches.
pub open spec fn search_tools() -> Seq<EntryView> {
    seq![
        entry_of("Glob"@, PermissionLevel::ReadOnly),
        entry_of("Grep"@, PermissionLevel::ReadOnly),
    ]
}

/// The language servers.
pub open spec fn language_tools() -> Seq<EntryView> {
    seq![entry_of("LSP"@, PermissionLevel::ReadOnly)]
}

/// The tools that reach beyond the workspace.
pub open spec fn outward_tools() -> Seq<EntryView> {
    seq![
        entry_of("monitor"@, PermissionLevel::ReadOnly),
        entry_of("Goal"@, PermissionLevel::NotNeeded),
        entry_of("browser"@, PermissionLevel::Dangerous),
        entry_of("generate_image"@, PermissionLevel::Write),
        entry_of("inspect_image"@, PermissionLevel::ReadOnly),
        entry_of("hub"@, PermissionLevel::Execute),
    ]
}

/// PowerShell, where the machine can run it. Offering a tool the machine cannot run
/// costs a turn.
pub open spec fn shell_tools(powershell: bool) -> Seq<EntryView> {
    if powershell {
        seq![entry_of("PowerShell"@, PermissionLevel::Execute)]
    } else {
        seq![]
    }
}

/// The tools that are defined here.
pub open spec fn defined_here(powershell: bool) -> Seq<EntryView> {
    file_tools() + search_tools() + language_tools() + outward_tools() + shell_tools(powershell)
}

/// All tools of a session, in the order in which it lists them.
pub open spec fn offered(others: OthersView, powershell: bool) -> Seq<EntryView> {
    file_tools() + others.editing + search_tools() + others.working + language_tools()
        + others.teaming + outward_tools() + others.desktop + shell_tools(powershell)
}

fn list(out: &mut Vec<ToolEntry>, name: &str, level: PermissionLevel)
    ensures
        entry_views(final(out)@) == entry_views(old(out)@).push(entry_of(name@, level)),
{
    let ghost before = out@;
    let e = entry(name, level);
    out.push(e);
    assert(entry_views(out@) =~= entry_views(before).push(entry_of(name@, level)));
}

fn list_all(out: &mut Vec<ToolEntry>, more: Vec<ToolEntry>)
    ensures
        entry_views(final(out)@) == entry_views(old(out)@) + entry_views(more@),
{
    let ghost before = out@;
    let mut more = more;
    let ghost given = more@;
    out.append(&mut more);
    assert(entry_views(out@) =~= entry_views(before) + entry_views(given));
}

/// All tools of a session: those defined here and the others it is given, each in
/// its place, and PowerShell where the machine can run it.
pub fn all_tools(others: OtherTools, powershell: bool) -> (out: Vec<ToolEntry>)
    ensures
        entry_views(out@) == offered(others@, powershell),
{
    let mut out: Vec<ToolEntry> = Vec::new();
    assert(entry_views(out@) =~= seq![]);
    let ghost given = others@;
    let OtherTools { editing, working, teaming, desktop } = others;

    list(&mut out, PtyBashTool.name(), PtyBashTool.permission_level());
    list(&mut out, FileReadTool.name(), FileReadTool.permission_level());
    list(&mut out, FileEditTool.name(), FileEditTool.permission_level());
    list(&mut out, FileWriteTool.name(), FileWriteTool.permission_level());
    assert(entry_views(out@) =~= file_tools());
    list_all(&mut out, editing);

    let ghost so_far = entry_views(out@);
    list(&mut out, GlobTool.name(), GlobTool.permission_level());
    list(&mut out, GrepTool.name(), GrepTool.permission_level());
    assert(entry_views(out@) =~= so_far + search_tools());
    list_all(&mut out, working);

    let ghost so_far = entry_views(out@);
    list(&mut out, LspTool.name(), LspTool.permission_level());
    assert(entry_views(out@) =~= so_far + language_tools());
    list_all(&mut out, teaming);

    let ghost so_far = entry_views(out@);
    list(&mut out, MonitorTool.name(), MonitorTool.permission_level());
    list(&mut out, GoalTool.name(), GoalTool.permission_level());
    list(&mut out, BrowserTool.name(), BrowserTool.permission_level());
    list(&mut out, GenerateImageTool.name(), GenerateImageTool.permission_level());
    list(&mut out, InspectImageTool.name(), InspectImageTool.permission_level());
    list(&mut out, HubTool.name(), HubTool.permission_level());
    assert(entry_views(out@) =~= so_far + outward_tools());
    list_all(&mut out, desktop);

    let ghost so_far = entry_views(out@);
    if powershell {
        list(&mut out, PowerShellTool.name(), PowerShellTool.permission_level());
    }
    assert(entry_views(out@) =~= so_far + shell_tools(powershell));
    out
}

/// Whether a tool of the name is among the entries.
pub open spec fn offers(roster: Seq<EntryView>, name: Seq<char>) -> bool {
    exists|i: int| 0 <= i < roster.len() && (#[trigger] roster[i]).name == name
}

/// Find a tool by name (case-sensitive): the first that has it.
pub fn find_tool<'a>(roster: &'a Vec<ToolEntry>, name: &str) -> (r: Option<&'a ToolEntry>)
    ensures
        r is Some == offers(entry_views(roster@), name@),
        r matches Some(e) ==> exists|i: int|
            0 <= i < roster@.len() && roster@[i] == *e && e.name@ == name@ && (forall|k: int|
                0 <= k < i ==> (#[trigger] roster@[k]).name@ != name@),
{
    let mut i: usize = 0;
    while i < roster.len()
        invariant
            i <= roster@.len(),
            forall|k: int| 0 <= k < i ==> (#[trigger] roster@[k]).name@ != name@,
        decreases roster.len() - i,
    {
        if same(&roster[i].name, name) {
            assert(entry_views(roster@)[i as int].name == name@);
            return Some(&roster[i]);
        }
        i += 1;
    }
    assert forall|k: int| 0 <= k < entry_views(roster@).len() implies (#[trigger] entry_views(
        roster@,
    )[k]).name != name@ by {
        assert(roster@[k].name@ != name@);
    }
    None
}

/// Whether a reader may use a tool: one that needs no more than reading, or the
/// one that asks the user.
pub open spec fn readable(e: EntryView) -> bool {
    e.level == PermissionLevel::ReadOnly || e.level == PermissionLevel::NotNeeded || e.name
        == "AskUserQuestion"@
}

/// The names of the tools that a reader may use.
pub open spec fn readable_names(roster: Seq<EntryView>) -> Seq<Seq<char>>
    decreases roster.len(),
{
    if roster.len() == 0 {
        seq![]
    } else if readable(roster.last()) {
        readable_names(roster.drop_last()).push(roster.last().name)
    } else {
        readable_names(roster.drop_last())
    }
}

/// The tool names an access level allows; none where it restricts nothing.
pub open spec fn allowed_names(access: Seq<char>, roster: Seq<EntryView>) -> Option<Seq<Seq<char>>> {
    if access == "read-only"@ {
        Some(readable_names(roster))
    } else if access == "search-only"@ {
        Some(seq!["Grep"@, "Glob"@, "Read"@, "WebSearch"@, "WebFetch"@])
    } else {
        None
    }
}

/// The tool names an access level allows, or none for unrestricted.
///
/// `full` is unrestricted. `read-only` allows the tools that need no more than
/// reading, and `AskUserQuestion`. `search-only` is a fixed search set.
pub fn access_tool_names(access: &str, roster: &Vec<ToolEntry>) -> (r: Option<Vec<String>>)
    ensures
        match r {
            Some(names) => allowed_names(access@, entry_views(roster@)) == Some(views(names@)),
            None => allowed_names(access@, entry_views(roster@)) is None,
        },
{
    broadcast use views_push;

    let mut names: Vec<String> = Vec::new();
    assert(views(names@) =~= seq![]);
    if same(access, "read-only") {
        let ghost model = entry_views(roster@);
        let mut i: usize = 0;
        assert(model.take(0) =~= seq![]);
        while i < roster.len()
            invariant
                i <= roster@.len(),
                model == entry_views(roster@),
                views(names@) == readable_names(model.take(i as int)),
            decreases roster.len() - i,
        {
            assert(model.take(i + 1).drop_last() =~= model.take(i as int));
            assert(model.take(i + 1).last() == roster@[i as int]@);
            let level = roster[i].level;
            if level == PermissionLevel::ReadOnly || level == PermissionLevel::NotNeeded || same(
                &roster[i].name,
                "AskUserQuestion",
            ) {
                names.push(roster[i].name.clone());
            }
            i += 1;
        }
        assert(model.take(model.len() as int) =~= model);
        return Some(names);
    }
    if same(access, "search-only") {
        names.push("Grep".to_string());
        names.push("Glob".to_string());
        names.push("Read".to_string());
        names.push("WebSearch".to_string());
        names.push("WebFetch".to_string());
        assert(views(names@) =~= seq!["Grep"@, "Glob"@, "Read"@, "WebSearch"@, "WebFetch"@]);
        return Some(names);
    }
    None
}

/// The names of some tools, in order.
pub open spec fn names(roster: Seq<EntryView>) -> Seq<Seq<char>> {
    roster.map_values(|e: EntryView| e.name)
}

/// Whether a session may add the tools: no two have one name, and none has the name
/// of a tool defined here.
pub open spec fn may_join(others: OthersView) -> bool {
    &&& names(others.all()).no_duplicates()
    &&& forall|i: int|
        0 <= i < others.all().len() ==> !offers(
            defined_here(true),
            (#[trigger] others.all()[i]).name,
        )
}

proof fn own_names_differ(powershell: bool)
    ensures
        names(defined_here(powershell)).no_duplicates(),
{
    reveal_strlit("Bash");
    reveal_strlit("Read");
    reveal_strlit("Edit");
    reveal_strlit("Write");
    reveal_strlit("Glob");
    reveal_strlit("Grep");
    reveal_strlit("LSP");
    reveal_strlit("monitor");
    reveal_strlit("Goal");
    reveal_strlit("browser");
    reveal_strlit("generate_image");
    reveal_strlit("inspect_image");
    reveal_strlit("hub");
    reveal_strlit("PowerShell");
    let own = names(defined_here(powershell));
    assert forall|i: int, j: int| 0 <= i < own.len() && 0 <= j < own.len() && i != j implies own[i]
        != own[j] by {
        assert(own[i].len() != own[j].len() || own[i][0] != own[j][0] || own[i][1] != own[j][1]);
    }
}

proof fn offered_counts(others: OthersView, powershell: bool)
    ensures
        offered(others, powershell).to_multiset() == (defined_here(powershell)
            + others.all()).to_multiset(),
{
    broadcast use vstd::seq_lib::lemma_multiset_commutative;

    let a = file_tools();
    let b = search_tools();
    let c = language_tools();
    let d = outward_tools();
    let e = shell_tools(powershell);
    assert(offered(others, powershell).to_multiset() =~= a.to_multiset().add(
        others.editing.to_multiset(),
    ).add(b.to_multiset()).add(others.working.to_multiset()).add(c.to_multiset()).add(
        others.teaming.to_multiset(),
    ).add(d.to_multiset()).add(others.desktop.to_multiset()).add(e.to_multiset()));
    assert((defined_here(powershell) + others.all()).to_multiset() =~= a.to_multiset().add(
        b.to_multiset(),
    ).add(c.to_multiset()).add(d.to_multiset()).add(e.to_multiset()).add(
        others.editing.to_multiset().add(others.working.to_multiset()).add(
            others.teaming.to_multiset(),
        ).add(others.desktop.to_multiset()),
    ));
}

proof fn shuffled_holds(a: Seq<EntryView>, b: Seq<EntryView>, e: EntryView)
    requires
        a.to_multiset() == b.to_multiset(),
        a.contains(e),
    ensures
        b.contains(e),
{
    a.to_multiset_ensures();
    b.to_multiset_ensures();
    assert(a.to_multiset().count(e) > 0);
    assert(b.to_multiset().count(e) > 0);
}

/// A session offers the tools defined here and those it adds, and no others.
pub proof fn a_session_offers_its_tools(others: OthersView, powershell: bool, name: Seq<char>)
    ensures
        offers(offered(others, powershell), name) == (offers(defined_here(powershell), name)
            || offers(others.all(), name)),
{
    let all = offered(others, powershell);
    let parts = defined_here(powershell) + others.all();
    offered_counts(others, powershell);
    if offers(all, name) {
        let i = choose|i: int| 0 <= i < all.len() && (#[trigger] all[i]).name == name;
        assert(all.contains(all[i]));
        shuffled_holds(all, parts, all[i]);
        let k = choose|k: int| 0 <= k < parts.len() && parts[k] == all[i];
        if k < defined_here(powershell).len() {
            assert(defined_here(powershell)[k].name == name);
        } else {
            assert(others.all()[k - defined_here(powershell).len()].name == name);
        }
    }
    if offers(defined_here(powershell), name) {
        let i = choose|i: int|
            0 <= i < defined_here(powershell).len() && (#[trigger] defined_here(powershell)[i]).name
                == name;
        assert(parts[i] == defined_here(powershell)[i]);
        assert(parts.contains(parts[i]));
        shuffled_holds(parts, all, parts[i]);
    }
    if offers(others.all(), name) {
        let i = choose|i: int|
            0 <= i < others.all().len() && (#[trigger] others.all()[i]).name == name;
        let k = i + defined_here(powershell).len();
        assert(parts[k] == others.all()[i]);
        assert(parts.contains(parts[k]));
        shuffled_holds(parts, all, parts[k]);
    }
}

/// No two tools of a session have one name, where the tools it adds have names of
/// their own.
pub proof fn no_two_tools_share_a_name(others: OthersView, powershell: bool)
    requires
        may_join(others),
    ensures
        names(offered(others, powershell)).no_duplicates(),
{
    let own = defined_here(powershell);
    let added = others.all();
    let parts = own + added;
    let all = offered(others, powershell);
    own_names_differ(powershell);
    assert(names(parts).no_duplicates()) by {
        assert forall|i: int, j: int|
            0 <= i < parts.len() && 0 <= j < parts.len() && i != j implies names(parts)[i]
            != names(parts)[j] by {
            if i < own.len() && j < own.len() {
                assert(names(own)[i] != names(own)[j]);
            } else if i >= own.len() && j >= own.len() {
                assert(names(added)[i - own.len()] != names(added)[j - own.len()]);
            } else {
                let o = if i < own.len() {
                    i
                } else {
                    j
                };
                let t = if i < own.len() {
                    j
                } else {
                    i
                } - own.len();
                assert(!offers(defined_here(true), added[t].name));
                assert(defined_here(true)[o] == own[o]);
                assert(defined_here(true)[o].name != added[t].name);
            }
        }
    }
    offered_counts(others, powershell);
    shuffled_names_differ(parts, all);
}

/// A list that holds each entry as often as another whose names differ has names
/// that differ too.
proof fn shuffled_names_differ(a: Seq<EntryView>, b: Seq<EntryView>)
    requires
        names(a).no_duplicates(),
        a.to_multiset() == b.to_multiset(),
    ensures
        names(b).no_duplicates(),
{
    assert(a.no_duplicates()) by {
        assert forall|i: int, j: int| 0 <= i < a.len() && 0 <= j < a.len() && i != j implies a[i]
            != a[j] by {
            assert(names(a)[i] != names(a)[j]);
        }
    }
    a.lemma_multiset_has_no_duplicates();
    b.lemma_multiset_has_no_duplicates_conv();
    assert forall|i: int, j: int|
        0 <= i < b.len() && 0 <= j < b.len() && i != j implies names(b)[i] != names(b)[j] by {
        assert(b[i] != b[j]);
        assert(b.contains(b[i]) && b.contains(b[j]));
        shuffled_holds(b, a, b[i]);
        shuffled_holds(b, a, b[j]);
        let k = choose|k: int| 0 <= k < a.len() && a[k] == b[i];
        let l = choose|l: int| 0 <= l < a.len() && a[l] == b[j];
        assert(names(a)[k] != names(a)[l]);
    }
}

/// PowerShell is offered where the machine can run it and, unless it is among the
/// other tools, nowhere else.
pub proof fn powershell_is_offered_where_it_runs(others: OthersView, powershell: bool)
    requires
        !offers(others.all(), "PowerShell"@),
    ensures
        offers(offered(others, powershell), "PowerShell"@) == powershell,
{
    a_session_offers_its_tools(others, powershell, "PowerShell"@);
    own_names_differ(true);
    let whole = defined_here(true);
    let last = whole.len() - 1;
    assert(whole[last].name == "PowerShell"@);
    if powershell {
        assert(offers(whole, "PowerShell"@));
    } else {
        let own = defined_here(false);
        assert forall|i: int| 0 <= i < own.len() implies (#[trigger] own[i]).name
            != "PowerShell"@ by {
            assert(whole[i] == own[i]);
            assert(names(whole)[i] != names(whole)[last]);
        }
    }
}

/// What searching access allows is offered, where the session adds the searches of
/// the web.
pub proof fn searching_access_names_what_is_offered(
    others: OthersView,
    powershell: bool,
    name: Seq<char>,
)
    requires
        offers(others.all(), "WebSearch"@),
        offers(others.all(), "WebFetch"@),
        allowed_names("search-only"@, offered(others, powershell)) matches Some(found)
            && found.contains(name),
    ensures
        offers(offered(others, powershell), name),
{
    reveal_strlit("search-only");
    reveal_strlit("read-only");
    assert("search-only"@.len() != "read-only"@.len());
    a_session_offers_its_tools(others, powershell, name);
    let own = defined_here(powershell);
    assert(own[1].name == "Read"@);
    assert(own[4].name == "Glob"@);
    assert(own[5].name == "Grep"@);
    let found = seq!["Grep"@, "Glob"@, "Read"@, "WebSearch"@, "WebFetch"@];
    let k = choose|k: int| 0 <= k < found.len() && found[k] == name;
    assert(found[k] == name);
}

proof fn readable_names_bound(roster: Seq<EntryView>, name: Seq<char>)
    requires
        readable_names(roster).contains(name),
    ensures
        exists|i: int|
            0 <= i < roster.len() && (#[trigger] roster[i]).name == name && readable(roster[i]),
    decreases roster.len(),
{
    if roster.len() > 0 {
        let before = readable_names(roster.drop_last());
        if readable(roster.last()) && name == roster.last().name {
            assert(roster[roster.len() - 1].name == name);
        } else {
            let at = choose|i: int|
                0 <= i < readable_names(roster).len() && readable_names(roster)[i] == name;
            assert(before.contains(name)) by {
                if readable(roster.last()) {
                    assert(at < before.len());
                    assert(before[at] == name);
                } else {
                    assert(before[at] == name);
                }
            }
            readable_names_bound(roster.drop_last(), name);
            let k = choose|i: int|
                0 <= i < roster.drop_last().len() && (#[trigger] roster.drop_last()[i]).name == name
                    && readable(roster.drop_last()[i]);
            assert(roster[k] == roster.drop_last()[k]);
        }
    }
}

/// Reading access allows, in the order of the list, exactly the tools that a reader
/// may use.
pub proof fn reading_access_keeps_the_order(roster: Seq<EntryView>)
    ensures
        readable_names(roster) == names(roster.filter(|e: EntryView| readable(e))),
    decreases roster.len(),
{
    reveal(Seq::filter);
    let pick = |e: EntryView| readable(e);
    if roster.len() == 0 {
        assert(readable_names(roster) =~= names(roster.filter(pick)));
    } else {
        reading_access_keeps_the_order(roster.drop_last());
        let before = roster.drop_last().filter(pick);
        if readable(roster.last()) {
            assert(names(before.push(roster.last())) =~= names(before).push(roster.last().name));
        }
    }
}

/// Reading access allows no tool that writes, executes or is dangerous, other than
/// the one that asks the user, and no tool that is not offered.
pub proof fn reading_access_allows_no_writing(roster: Seq<EntryView>, name: Seq<char>)
    requires
        readable_names(roster).contains(name),
    ensures
        exists|i: int|
            0 <= i < roster.len() && (#[trigger] roster[i]).name == name && readable(roster[i]),
{
    readable_names_bound(roster, name);
}

proof fn readable_names_hold(roster: Seq<EntryView>, i: int)
    requires
        0 <= i < roster.len(),
        readable(roster[i]),
    ensures
        readable_names(roster).contains(roster[i].name),
    decreases roster.len(),
{
    let before = readable_names(roster.drop_last());
    let all = readable_names(roster);
    if i == roster.len() - 1 {
        assert(all[all.len() - 1] == roster[i].name);
    } else {
        readable_names_hold(roster.drop_last(), i);
        let at = choose|at: int| 0 <= at < before.len() && before[at] == roster[i].name;
        assert(all[at] == roster[i].name);
    }
}

/// Where no two tools share a name, reading access allows a tool that is offered if
/// and only if it needs no more than reading or is the one that asks the user.
pub proof fn reading_access_is_by_level(roster: Seq<EntryView>, i: int)
    requires
        names(roster).no_duplicates(),
        0 <= i < roster.len(),
    ensures
        readable_names(roster).contains(roster[i].name) == readable(roster[i]),
{
    if readable(roster[i]) {
        readable_names_hold(roster, i);
    }
    if readable_names(roster).contains(roster[i].name) {
        readable_names_bound(roster, roster[i].name);
        let k = choose|k: int|
            0 <= k < roster.len() && (#[trigger] roster[k]).name == roster[i].name && readable(
                roster[k],
            );
        if k != i {
            assert(names(roster)[k] != names(roster)[i]);
        }
    }
}

/// Of the tools defined here, reading access allows those that read, search, ask a
/// language server, watch, keep the goal and look at a picture, and none that
/// writes, runs or drives the browser.
pub proof fn what_a_reader_may_use(others: OthersView, powershell: bool, e: EntryView)
    requires
        may_join(others),
        defined_here(powershell).contains(e),
    ensures
        readable_names(offered(others, powershell)).contains(e.name) == (seq![
            "Read"@,
            "Glob"@,
            "Grep"@,
            "LSP"@,
            "monitor"@,
            "Goal"@,
            "inspect_image"@,
        ].contains(e.name)),
{
    let own = defined_here(powershell);
    let all = offered(others, powershell);
    let allowed = seq![
        "Read"@,
        "Glob"@,
        "Grep"@,
        "LSP"@,
        "monitor"@,
        "Goal"@,
        "inspect_image"@,
    ];
    let parts = own + others.all();
    no_two_tools_share_a_name(others, powershell);
    offered_counts(others, powershell);
    let k = choose|k: int| 0 <= k < own.len() && own[k] == e;
    assert(parts[k] == e);
    assert(parts.contains(e));
    shuffled_holds(parts, all, e);
    let i = choose|i: int| 0 <= i < all.len() && all[i] == e;
    reading_access_is_by_level(all, i);
    own_names_differ(powershell);
    own_entry_is_not_the_question(powershell, k);
    assert(own[1].name == allowed[0]);
    assert(own[4].name == allowed[1]);
    assert(own[5].name == allowed[2]);
    assert(own[6].name == allowed[3]);
    assert(own[7].name == allowed[4]);
    assert(own[8].name == allowed[5]);
    assert(own[11].name == allowed[6]);
    if allowed.contains(e.name) {
        let a = choose|a: int| 0 <= a < allowed.len() && allowed[a] == e.name;
        let o: int = if a == 0 {
            1
        } else if a == 6 {
            11
        } else {
            a + 3
        };
        assert(own[o].name == allowed[a]);
        if o != k {
            assert(names(own)[o] != names(own)[k]);
        }
        assert(readable(e));
    } else {
        assert(k != 1 && k != 4 && k != 5 && k != 6 && k != 7 && k != 8 && k != 11);
        assert(!readable(e));
    }
}

proof fn own_entry_is_not_the_question(powershell: bool, k: int)
    requires
        0 <= k < defined_here(powershell).len(),
    ensures
        defined_here(powershell)[k].name != "AskUserQuestion"@,
{
    reveal_strlit("AskUserQuestion");
    reveal_strlit("Bash");
    reveal_strlit("Read");
    reveal_strlit("Edit");
    reveal_strlit("Write");
    reveal_strlit("Glob");
    reveal_strlit("Grep");
    reveal_strlit("LSP");
    reveal_strlit("monitor");
    reveal_strlit("Goal");
    reveal_strlit("browser");
    reveal_strlit("generate_image");
    reveal_strlit("inspect_image");
    reveal_strlit("hub");
    reveal_strlit("PowerShell");
    assert(defined_here(powershell)[k].name.len() != "AskUserQuestion"@.len());
}

} // verus!
